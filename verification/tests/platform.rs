use rustzen_core::platform::{render_env_file, ResourceLimits, ServiceLayout, SystemdService};

#[test]
fn layout_uses_opt_product_root() {
    let layout = ServiceLayout::for_product("rustzen-admin");
    assert_eq!(layout.install_root(), "/opt/rustzen-admin");
    assert_eq!(layout.env_file(), "/opt/rustzen-admin/config/app.env");
    assert_eq!(layout.service_file_name(), "rustzen-admin.service");
}

#[test]
fn custom_layout_is_preserved_in_systemd_render() {
    let layout = ServiceLayout::new("rustzen-admin", "/srv/rustzen-admin");
    let service = SystemdService::for_layout(&layout, "rustzen-admin").render();
    assert!(service.contains("EnvironmentFile=/srv/rustzen-admin/config/app.env"));
    assert!(service.contains("ExecStart=/srv/rustzen-admin/bin/rustzen-admin"));
    assert!(service.contains("WorkingDirectory=/srv/rustzen-admin"));
}

#[test]
fn systemd_render_has_required_fields() {
    let layout = ServiceLayout::for_product("rustzen-admin");
    let limits = ResourceLimits::new().memory_high("4G").memory_max("6G").cpu_quota("300%");
    let service = SystemdService::for_layout(&layout, "rustzen-admin")
        .with_security(true, true)
        .with_resource_limits(limits)
        .render();
    assert!(service.contains("EnvironmentFile=/opt/rustzen-admin/config/app.env"));
    assert!(service.contains("ExecStart=/opt/rustzen-admin/bin/rustzen-admin"));
    assert!(service.contains("Restart=always"));
    assert!(service.contains("MemoryHigh=4G"));
    assert!(service.contains("CPUQuota=300%"));
    assert!(service.contains("NoNewPrivileges=true"));
    assert!(service.contains("PrivateTmp=true"));
}

#[test]
fn lib_env_file_renderer_is_stable() {
    let env = render_env_file(&[("RUSTZEN_APP_PORT", "9880"), ("RUSTZEN_RUNTIME_ROOT", ".")]);
    assert_eq!(env, "RUSTZEN_APP_PORT=9880\nRUSTZEN_RUNTIME_ROOT=.\n");
}

#[test]
fn layout_dirs_follow_install_root() {
    let layout = ServiceLayout::new("svc", "/srv/svc");
    assert_eq!(layout.bin_path("svc"), "/srv/svc/bin/svc");
    assert_eq!(layout.db_dir(), "/srv/svc/data/db");
    assert_eq!(layout.service_file_path(), "/srv/svc/systemd/svc.service");
    assert!(layout.required_dirs().contains(&"/srv/svc/logs".to_string()));
}

#[test]
fn plain_service_has_no_hardening() {
    let service = SystemdService::new("svc", "/usr/bin/svc").render();
    assert!(service.contains("ExecStart=/usr/bin/svc"));
    assert!(service.contains("RestartSec=5"));
    assert!(!service.contains("NoNewPrivileges"));
    assert!(!service.contains("MemoryHigh"));
}
