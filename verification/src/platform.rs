//! Service install layout under `/opt/<product>`, systemd unit rendering and
//! env file rendering for deployments.
use vstd::prelude::*;

use crate::paths::{join_path, path_join};
use crate::text::{decimal, owned, push_char, push_decimal, push_str};

verus! {

/// Where a product is installed and the directories below its root.
#[derive(Debug, Clone, PartialEq, Eq)]
pub struct ServiceLayout {
    product: String,
    install_root: String,
}

impl View for ServiceLayout {
    type V = (Seq<char>, Seq<char>);

    closed spec fn view(&self) -> (Seq<char>, Seq<char>) {
        (self.product@, self.install_root@)
    }
}

impl ServiceLayout {
    /// The layout of a product installed under `/opt/<product>`.
    pub fn for_product(product: &str) -> (l: Self)
        ensures
            l@.0 == product@,
            l@.1 == "/opt/"@ + product@,
    {
        let mut root = owned("/opt/");
        push_str(&mut root, product);
        ServiceLayout { product: owned(product), install_root: root }
    }

    /// The layout of a product installed under `install_root`.
    pub fn new(product: &str, install_root: &str) -> (l: Self)
        ensures
            l@.0 == product@,
            l@.1 == install_root@,
    {
        ServiceLayout { product: owned(product), install_root: owned(install_root) }
    }

    pub fn product(&self) -> (r: &str)
        ensures
            r@ == self@.0,
    {
        self.product.as_str()
    }

    pub fn install_root(&self) -> (r: &str)
        ensures
            r@ == self@.1,
    {
        self.install_root.as_str()
    }

    pub fn bin_dir(&self) -> (r: String)
        ensures
            r@ == path_join(self@.1, "bin"@),
    {
        join_path(self.install_root.as_str(), "bin")
    }

    pub fn bin_path(&self, binary_name: &str) -> (r: String)
        ensures
            r@ == path_join(path_join(self@.1, "bin"@), binary_name@),
    {
        let d = self.bin_dir();
        join_path(d.as_str(), binary_name)
    }

    pub fn config_dir(&self) -> (r: String)
        ensures
            r@ == path_join(self@.1, "config"@),
    {
        join_path(self.install_root.as_str(), "config")
    }

    pub fn env_file(&self) -> (r: String)
        ensures
            r@ == path_join(path_join(self@.1, "config"@), "app.env"@),
    {
        let d = self.config_dir();
        join_path(d.as_str(), "app.env")
    }

    pub fn data_dir(&self) -> (r: String)
        ensures
            r@ == path_join(self@.1, "data"@),
    {
        join_path(self.install_root.as_str(), "data")
    }

    pub fn db_dir(&self) -> (r: String)
        ensures
            r@ == path_join(path_join(self@.1, "data"@), "db"@),
    {
        let d = self.data_dir();
        join_path(d.as_str(), "db")
    }

    pub fn uploads_dir(&self) -> (r: String)
        ensures
            r@ == path_join(path_join(self@.1, "data"@), "uploads"@),
    {
        let d = self.data_dir();
        join_path(d.as_str(), "uploads")
    }

    pub fn avatars_dir(&self) -> (r: String)
        ensures
            r@ == path_join(path_join(self@.1, "data"@), "avatars"@),
    {
        let d = self.data_dir();
        join_path(d.as_str(), "avatars")
    }

    pub fn logs_dir(&self) -> (r: String)
        ensures
            r@ == path_join(self@.1, "logs"@),
    {
        join_path(self.install_root.as_str(), "logs")
    }

    pub fn systemd_dir(&self) -> (r: String)
        ensures
            r@ == path_join(self@.1, "systemd"@),
    {
        join_path(self.install_root.as_str(), "systemd")
    }

    pub fn service_file_name(&self) -> (r: String)
        ensures
            r@ == self@.0 + ".service"@,
    {
        let mut r = owned(self.product.as_str());
        push_str(&mut r, ".service");
        r
    }

    pub fn service_file_path(&self) -> (r: String)
        ensures
            r@ == path_join(path_join(self@.1, "systemd"@), self@.0 + ".service"@),
    {
        let d = self.systemd_dir();
        let n = self.service_file_name();
        join_path(d.as_str(), n.as_str())
    }

    pub fn web_dir(&self) -> (r: String)
        ensures
            r@ == path_join(self@.1, "web"@),
    {
        join_path(self.install_root.as_str(), "web")
    }

    pub fn web_dist_dir(&self) -> (r: String)
        ensures
            r@ == path_join(path_join(self@.1, "web"@), "dist"@),
    {
        let d = self.web_dir();
        join_path(d.as_str(), "dist")
    }

    /// The directories an install needs: bin, config, db, uploads, avatars,
    /// logs, systemd and web, in that order.
    pub fn required_dirs(&self) -> (r: Vec<String>)
        ensures
            r@.len() == 8,
            r@[0]@ == path_join(self@.1, "bin"@),
            r@[1]@ == path_join(self@.1, "config"@),
            r@[2]@ == path_join(path_join(self@.1, "data"@), "db"@),
            r@[3]@ == path_join(path_join(self@.1, "data"@), "uploads"@),
            r@[4]@ == path_join(path_join(self@.1, "data"@), "avatars"@),
            r@[5]@ == path_join(self@.1, "logs"@),
            r@[6]@ == path_join(self@.1, "systemd"@),
            r@[7]@ == path_join(self@.1, "web"@),
    {
        let mut r: Vec<String> = Vec::new();
        r.push(self.bin_dir());
        r.push(self.config_dir());
        r.push(self.db_dir());
        r.push(self.uploads_dir());
        r.push(self.avatars_dir());
        r.push(self.logs_dir());
        r.push(self.systemd_dir());
        r.push(self.web_dir());
        r
    }
}

/// systemd resource limits; absent limits are not rendered.
#[derive(Debug, Clone, PartialEq, Eq)]
pub struct ResourceLimits {
    pub memory_high: Option<String>,
    pub memory_max: Option<String>,
    pub cpu_quota: Option<String>,
    pub tasks_max: Option<u64>,
    pub limit_nofile: Option<u64>,
}

impl Default for ResourceLimits {
    fn default() -> (l: Self)
        ensures
            l.memory_high.is_none(),
            l.memory_max.is_none(),
            l.cpu_quota.is_none(),
            l.tasks_max.is_none(),
            l.limit_nofile.is_none(),
    {
        ResourceLimits {
            memory_high: None,
            memory_max: None,
            cpu_quota: None,
            tasks_max: None,
            limit_nofile: None,
        }
    }
}

impl ResourceLimits {
    /// No limits.
    pub fn new() -> (l: Self)
        ensures
            l.memory_high.is_none(),
            l.memory_max.is_none(),
            l.cpu_quota.is_none(),
            l.tasks_max.is_none(),
            l.limit_nofile.is_none(),
    {
        Self::default()
    }

    pub fn memory_high(self, value: &str) -> (l: Self)
        ensures
            l.memory_high matches Some(v) && v@ == value@,
            l.memory_max == self.memory_max,
            l.cpu_quota == self.cpu_quota,
            l.tasks_max == self.tasks_max,
            l.limit_nofile == self.limit_nofile,
    {
        ResourceLimits { memory_high: Some(owned(value)), ..self }
    }

    pub fn memory_max(self, value: &str) -> (l: Self)
        ensures
            l.memory_max matches Some(v) && v@ == value@,
            l.memory_high == self.memory_high,
            l.cpu_quota == self.cpu_quota,
            l.tasks_max == self.tasks_max,
            l.limit_nofile == self.limit_nofile,
    {
        ResourceLimits { memory_max: Some(owned(value)), ..self }
    }

    pub fn cpu_quota(self, value: &str) -> (l: Self)
        ensures
            l.cpu_quota matches Some(v) && v@ == value@,
            l.memory_high == self.memory_high,
            l.memory_max == self.memory_max,
            l.tasks_max == self.tasks_max,
            l.limit_nofile == self.limit_nofile,
    {
        ResourceLimits { cpu_quota: Some(owned(value)), ..self }
    }

    pub fn tasks_max(self, value: u64) -> (l: Self)
        ensures
            l.tasks_max == Some(value),
            l.memory_high == self.memory_high,
            l.memory_max == self.memory_max,
            l.cpu_quota == self.cpu_quota,
            l.limit_nofile == self.limit_nofile,
    {
        ResourceLimits { tasks_max: Some(value), ..self }
    }

    pub fn limit_nofile(self, value: u64) -> (l: Self)
        ensures
            l.limit_nofile == Some(value),
            l.memory_high == self.memory_high,
            l.memory_max == self.memory_max,
            l.cpu_quota == self.cpu_quota,
            l.tasks_max == self.tasks_max,
    {
        ResourceLimits { limit_nofile: Some(value), ..self }
    }
}

/// A systemd service definition.
#[derive(Debug, Clone, PartialEq, Eq)]
pub struct SystemdService {
    pub name: String,
    pub description: String,
    pub exec_start: String,
    pub working_directory: String,
    pub environment_file: Option<String>,
    pub environment: Vec<(String, String)>,
    pub user: Option<String>,
    pub group: Option<String>,
    pub restart: String,
    pub restart_sec: u64,
    pub resource_limits: ResourceLimits,
    pub no_new_privileges: bool,
    pub private_tmp: bool,
}

/// `key` + the value + newline when the value is present, else nothing.
pub open spec fn opt_line(key: Seq<char>, value: Option<String>) -> Seq<char> {
    match value {
        Some(v) => key + v@ + "\n"@,
        None => Seq::empty(),
    }
}

/// `key` + the number + newline when the number is present, else nothing.
pub open spec fn opt_num_line(key: Seq<char>, value: Option<u64>) -> Seq<char> {
    match value {
        Some(v) => key + decimal(v as nat) + "\n"@,
        None => Seq::empty(),
    }
}

/// One `Environment=KEY=value` line per variable, in order.
pub open spec fn environment_lines(env: Seq<(String, String)>) -> Seq<char>
    decreases env.len(),
{
    if env.len() == 0 {
        Seq::empty()
    } else {
        environment_lines(env.drop_last()) + "Environment="@ + env.last().0@ + "="@
            + env.last().1@ + "\n"@
    }
}

/// The unit file of a service.
pub open spec fn render_unit(s: SystemdService) -> Seq<char> {
    "[Unit]\n"@ + "Description="@ + s.description@ + "\n"@ + "After=network.target\n\n"@
        + "[Service]\n"@ + "Type=simple\n"@ + opt_line("User="@, s.user) + opt_line(
        "Group="@,
        s.group,
    ) + opt_line("EnvironmentFile="@, s.environment_file) + environment_lines(s.environment@)
        + "ExecStart="@ + s.exec_start@ + "\n"@ + "WorkingDirectory="@ + s.working_directory@
        + "\n"@ + "Restart="@ + s.restart@ + "\n"@ + "RestartSec="@ + decimal(
        s.restart_sec as nat,
    ) + "\n"@ + opt_line("MemoryHigh="@, s.resource_limits.memory_high) + opt_line(
        "MemoryMax="@,
        s.resource_limits.memory_max,
    ) + opt_line("CPUQuota="@, s.resource_limits.cpu_quota) + opt_num_line(
        "TasksMax="@,
        s.resource_limits.tasks_max,
    ) + opt_num_line("LimitNOFILE="@, s.resource_limits.limit_nofile) + (if s.no_new_privileges {
        "NoNewPrivileges=true\n"@
    } else {
        Seq::empty()
    }) + (if s.private_tmp {
        "PrivateTmp=true\n"@
    } else {
        Seq::empty()
    }) + "\n[Install]\n"@ + "WantedBy=multi-user.target\n"@
}

/// The texts `pieces` stand in `text` in this order, without overlapping,
/// the `i`-th starting at `ps[i]`.
pub open spec fn occur_in_order_at(text: Seq<char>, pieces: Seq<Seq<char>>, ps: Seq<int>) -> bool {
    &&& ps.len() == pieces.len()
    &&& forall|i: int|
        #![trigger ps[i]]
        0 <= i < ps.len() ==> 0 <= ps[i] && ps[i] + pieces[i].len() <= text.len() && text.subrange(
            ps[i],
            ps[i] + pieces[i].len(),
        ) == pieces[i]
    &&& forall|i: int, j: int|
        #![trigger ps[i], ps[j]]
        0 <= i < j < ps.len() ==> ps[i] + pieces[i].len() <= ps[j]
}

/// The texts `pieces` stand in `text` in this order, without overlapping.
pub open spec fn occur_in_order(text: Seq<char>, pieces: Seq<Seq<char>>) -> bool {
    exists|ps: Seq<int>| occur_in_order_at(text, pieces, ps)
}

/// The `Environment=` lines of a variable list and the `ExecStart=` line.
pub open spec fn environment_then_exec(env: Seq<(String, String)>, exec_start: Seq<char>) -> Seq<
    Seq<char>,
> {
    env.map_values(|kv: (String, String)| "Environment="@ + kv.0@ + "="@ + kv.1@ + "\n"@).push(
        "ExecStart="@ + exec_start + "\n"@,
    )
}

proof fn lemma_environment_lines_prefix(env: Seq<(String, String)>, j: int)
    requires
        0 <= j <= env.len(),
    ensures
        environment_lines(env.take(j)).is_prefix_of(environment_lines(env)),
    decreases env.len(),
{
    if j == env.len() {
        assert(env.take(j) =~= env);
    } else {
        let d = env.drop_last();
        lemma_environment_lines_prefix(d, j);
        assert(d.take(j) =~= env.take(j));
        let a = environment_lines(d);
        let p = environment_lines(env.take(j));
        assert(environment_lines(env).subrange(0, p.len() as int) =~= a.subrange(0, p.len() as int));
    }
}

proof fn lemma_environment_line_at(env: Seq<(String, String)>, i: int)
    requires
        0 <= i < env.len(),
    ensures
        environment_lines(env.take(i + 1)) == environment_lines(env.take(i)) + ("Environment="@
            + env[i].0@ + "="@ + env[i].1@ + "\n"@),
{
    let t = env.take(i + 1);
    assert(t.drop_last() =~= env.take(i));
    assert(t.last() == env[i]);
    assert(environment_lines(t) =~= environment_lines(env.take(i)) + ("Environment="@ + env[i].0@
        + "="@ + env[i].1@ + "\n"@));
}

/// The part of a unit before its `Environment=` lines.
spec fn unit_head(s: SystemdService) -> Seq<char> {
    "[Unit]\n"@ + "Description="@ + s.description@ + "\n"@ + "After=network.target\n\n"@
        + "[Service]\n"@ + "Type=simple\n"@ + opt_line("User="@, s.user) + opt_line(
        "Group="@,
        s.group,
    ) + opt_line("EnvironmentFile="@, s.environment_file)
}

proof fn lemma_prefix_extend(p: Seq<char>, q: Seq<char>, t: Seq<char>)
    requires
        p.is_prefix_of(q),
    ensures
        p.is_prefix_of(q + t),
{
    assert((q + t).subrange(0, p.len() as int) =~= q.subrange(0, p.len() as int));
}

proof fn lemma_unit_starts_with(s: SystemdService)
    ensures
        (unit_head(s) + environment_lines(s.environment@) + ("ExecStart="@ + s.exec_start@
            + "\n"@)).is_prefix_of(render_unit(s)),
{
    let p = unit_head(s) + environment_lines(s.environment@) + "ExecStart="@ + s.exec_start@
        + "\n"@;
    assert(p =~= unit_head(s) + environment_lines(s.environment@) + ("ExecStart="@
        + s.exec_start@ + "\n"@));
    let q0 = p;
    assert(p.is_prefix_of(q0));
    let t1 = "WorkingDirectory="@;
    let q1 = q0 + t1;
    lemma_prefix_extend(p, q0, t1);
    let t2 = s.working_directory@;
    let q2 = q1 + t2;
    lemma_prefix_extend(p, q1, t2);
    let t3 = "\n"@;
    let q3 = q2 + t3;
    lemma_prefix_extend(p, q2, t3);
    let t4 = "Restart="@;
    let q4 = q3 + t4;
    lemma_prefix_extend(p, q3, t4);
    let t5 = s.restart@;
    let q5 = q4 + t5;
    lemma_prefix_extend(p, q4, t5);
    let t6 = "\n"@;
    let q6 = q5 + t6;
    lemma_prefix_extend(p, q5, t6);
    let t7 = "RestartSec="@;
    let q7 = q6 + t7;
    lemma_prefix_extend(p, q6, t7);
    let t8 = decimal(s.restart_sec as nat);
    let q8 = q7 + t8;
    lemma_prefix_extend(p, q7, t8);
    let t9 = "\n"@;
    let q9 = q8 + t9;
    lemma_prefix_extend(p, q8, t9);
    let t10 = opt_line("MemoryHigh="@, s.resource_limits.memory_high);
    let q10 = q9 + t10;
    lemma_prefix_extend(p, q9, t10);
    let t11 = opt_line("MemoryMax="@, s.resource_limits.memory_max);
    let q11 = q10 + t11;
    lemma_prefix_extend(p, q10, t11);
    let t12 = opt_line("CPUQuota="@, s.resource_limits.cpu_quota);
    let q12 = q11 + t12;
    lemma_prefix_extend(p, q11, t12);
    let t13 = opt_num_line("TasksMax="@, s.resource_limits.tasks_max);
    let q13 = q12 + t13;
    lemma_prefix_extend(p, q12, t13);
    let t14 = opt_num_line("LimitNOFILE="@, s.resource_limits.limit_nofile);
    let q14 = q13 + t14;
    lemma_prefix_extend(p, q13, t14);
    let t15 = (if s.no_new_privileges {
        "NoNewPrivileges=true\n"@
    } else {
        Seq::empty()
    });
    let q15 = q14 + t15;
    lemma_prefix_extend(p, q14, t15);
    let t16 = (if s.private_tmp {
        "PrivateTmp=true\n"@
    } else {
        Seq::empty()
    });
    let q16 = q15 + t16;
    lemma_prefix_extend(p, q15, t16);
    let t17 = "\n[Install]\n"@;
    let q17 = q16 + t17;
    lemma_prefix_extend(p, q16, t17);
    let t18 = "WantedBy=multi-user.target\n"@;
    let q18 = q17 + t18;
    lemma_prefix_extend(p, q17, t18);
    assert(q18 == render_unit(s));
}

/// The unit of a service lists each of its environment variables on an
/// `Environment=KEY=value` line, in the order they were added, followed by
/// the `ExecStart=` line.
pub proof fn law_unit_lists_environment(s: SystemdService)
    ensures
        occur_in_order(render_unit(s), environment_then_exec(s.environment@, s.exec_start@)),
{
    lemma_unit_starts_with(s);
    lemma_lines_in_order(render_unit(s), unit_head(s), s.environment@, s.exec_start@);
}

/// The `i`-th `Environment=` line stands in the environment text where the
/// lines before it end.
proof fn lemma_environment_piece(env: Seq<(String, String)>, i: int)
    requires
        0 <= i < env.len(),
    ensures
        ({
            let l = environment_lines(env.take(i)).len() as int;
            let piece = environment_then_exec(env, Seq::empty())[i];
            &&& piece == "Environment="@ + env[i].0@ + "="@ + env[i].1@ + "\n"@
            &&& l + piece.len() <= environment_lines(env).len()
            &&& environment_lines(env).subrange(l, l + piece.len()) == piece
        }),
{
    lemma_environment_line_at(env, i);
    lemma_environment_lines_prefix(env, i + 1);
    let e = environment_lines(env);
    let l = environment_lines(env.take(i)).len() as int;
    let q = environment_lines(env.take(i + 1));
    let piece = environment_then_exec(env, Seq::empty())[i];
    assert(piece == "Environment="@ + env[i].0@ + "="@ + env[i].1@ + "\n"@);
    assert(e.subrange(l, l + piece.len()) =~= q.subrange(l, l + piece.len()));
    assert(q.subrange(l, l + piece.len()) =~= piece);
}

/// The `Environment=` lines end no later than the next one starts.
proof fn lemma_environment_piece_order(env: Seq<(String, String)>, i: int, j: int)
    requires
        0 <= i < j <= env.len(),
    ensures
        environment_lines(env.take(i)).len() + ("Environment="@ + env[i].0@ + "="@ + env[i].1@
            + "\n"@).len() <= environment_lines(env.take(j)).len(),
{
    lemma_environment_line_at(env, i);
    lemma_environment_lines_prefix(env.take(j), i + 1);
    assert(env.take(j).take(i + 1) =~= env.take(i + 1));
}

/// Text that starts with `a`, the `Environment=` lines of `env` and the
/// `ExecStart=` line holds those lines in order.
proof fn lemma_lines_in_order(
    text: Seq<char>,
    a: Seq<char>,
    env: Seq<(String, String)>,
    exec_start: Seq<char>,
)
    requires
        (a + environment_lines(env) + ("ExecStart="@ + exec_start + "\n"@)).is_prefix_of(text),
    ensures
        occur_in_order(text, environment_then_exec(env, exec_start)),
{
    let n = env.len();
    let e = environment_lines(env);
    let x = "ExecStart="@ + exec_start + "\n"@;
    let pieces = environment_then_exec(env, exec_start);
    let ps = Seq::new(
        n + 1,
        |i: int|
            if i < n {
                (a.len() + environment_lines(env.take(i)).len()) as int
            } else {
                (a.len() + e.len()) as int
            },
    );
    assert(pieces.len() == n + 1);
    let p = a + e + x;
    assert(p.len() <= text.len());
    assert forall|k: int| 0 <= k < p.len() implies #[trigger] text[k] == p[k] by {
        assert(text.subrange(0, p.len() as int)[k] == text[k]);
    }
    assert forall|i: int| #![trigger ps[i]] 0 <= i < ps.len() implies 0 <= ps[i] && ps[i]
        + pieces[i].len() <= text.len() && text.subrange(ps[i], ps[i] + pieces[i].len())
        == pieces[i] by {
        if i < n {
            lemma_environment_piece(env, i);
            let l = environment_lines(env.take(i)).len() as int;
            assert(pieces[i] == environment_then_exec(env, Seq::empty())[i]);
            let len = pieces[i].len() as int;
            assert forall|k: int| 0 <= k < len implies #[trigger] text.subrange(ps[i], ps[i] + len)[k]
                == e.subrange(l, l + len)[k] by {
                assert(text[ps[i] + k] == p[a.len() + l + k]);
                assert(p[a.len() + l + k] == e[l + k]);
            }
            assert(text.subrange(ps[i], ps[i] + pieces[i].len()) =~= e.subrange(
                l,
                l + pieces[i].len(),
            ));
        } else {
            assert(pieces[i] == x);
            assert forall|k: int| 0 <= k < x.len() implies #[trigger] text.subrange(
                ps[i],
                ps[i] + x.len(),
            )[k] == x[k] by {
                assert(text[ps[i] + k] == p[a.len() + e.len() + k]);
                assert(p[a.len() + e.len() + k] == x[k]);
            }
            assert(text.subrange(ps[i], ps[i] + pieces[i].len()) =~= x);
        }
    }
    assert forall|i: int, j: int| #![trigger ps[i], ps[j]] 0 <= i < j < ps.len() implies ps[i]
        + pieces[i].len() <= ps[j] by {
        lemma_environment_piece_order(env, i, if j < n { j } else { n as int });
        assert(pieces[i] == "Environment="@ + env[i].0@ + "="@ + env[i].1@ + "\n"@);
        if j == n {
            assert(env.take(n as int) =~= env);
        }
    }
    assert(occur_in_order_at(text, pieces, ps));
}

fn push_opt_line(out: &mut String, key: &str, value: &Option<String>)
    ensures
        final(out)@ == old(out)@ + opt_line(key@, *value),
{
    match value {
        Some(v) => {
            push_str(out, key);
            push_str(out, v.as_str());
            push_str(out, "\n");
        },
        None => {},
    }
}

fn push_opt_num_line(out: &mut String, key: &str, value: Option<u64>)
    ensures
        final(out)@ == old(out)@ + opt_num_line(key@, value),
{
    match value {
        Some(v) => {
            push_str(out, key);
            push_decimal(out, v);
            push_str(out, "\n");
        },
        None => {},
    }
}

/// No resource limit is set.
pub open spec fn no_limits(l: ResourceLimits) -> bool {
    l.memory_high.is_none() && l.memory_max.is_none() && l.cpu_quota.is_none()
        && l.tasks_max.is_none() && l.limit_nofile.is_none()
}

/// A service of `product` installed under `root` that runs `exec`: it runs
/// in the root, reads the root's `config/app.env`, is restarted always after
/// 5 seconds, and has no user, group, environment, limits or hardening.
pub open spec fn fresh_service(s: SystemdService, product: Seq<char>, root: Seq<char>, exec: Seq<
    char,
>) -> bool {
    &&& s.name@ == product
    &&& s.description@ == product
    &&& s.exec_start@ == exec
    &&& s.working_directory@ == root
    &&& s.environment_file matches Some(f) && f@ == path_join(path_join(root, "config"@), "app.env"@)
    &&& s.environment@.len() == 0
    &&& s.user.is_none()
    &&& s.group.is_none()
    &&& s.restart@ == "always"@
    &&& s.restart_sec == 5
    &&& no_limits(s.resource_limits)
    &&& !s.no_new_privileges
    &&& !s.private_tmp
}

impl SystemdService {
    /// A service named after the product, laid out under `/opt/<name>`.
    pub fn new(name: &str, exec_start: &str) -> (s: Self)
        ensures
            fresh_service(s, name@, "/opt/"@ + name@, exec_start@),
    {
        let layout = ServiceLayout::for_product(name);
        Self::for_layout_with_exec(&layout, exec_start)
    }

    /// A service that runs `binary_name` from the layout's bin directory.
    pub fn for_layout(layout: &ServiceLayout, binary_name: &str) -> (s: Self)
        ensures
            fresh_service(
                s,
                layout@.0,
                layout@.1,
                path_join(path_join(layout@.1, "bin"@), binary_name@),
            ),
    {
        let exec = layout.bin_path(binary_name);
        Self::for_layout_with_exec(layout, exec.as_str())
    }

    /// A service of the layout's product that runs `exec_start` in the
    /// install root, reading the layout's env file, restarted always after
    /// 5 seconds, with no user, group, environment, limits or hardening.
    pub fn for_layout_with_exec(layout: &ServiceLayout, exec_start: &str) -> (s: Self)
        ensures
            fresh_service(s, layout@.0, layout@.1, exec_start@),
    {
        SystemdService {
            name: owned(layout.product()),
            description: owned(layout.product()),
            exec_start: owned(exec_start),
            working_directory: owned(layout.install_root()),
            environment_file: Some(layout.env_file()),
            environment: Vec::new(),
            user: None,
            group: None,
            restart: owned("always"),
            restart_sec: 5,
            resource_limits: ResourceLimits::default(),
            no_new_privileges: false,
            private_tmp: false,
        }
    }

    pub fn with_user_group(self, user: &str, group: &str) -> (s: Self)
        ensures
            s.user matches Some(u) && u@ == user@,
            s.group matches Some(g) && g@ == group@,
            s == (SystemdService { user: s.user, group: s.group, ..self }),
    {
        SystemdService { user: Some(owned(user)), group: Some(owned(group)), ..self }
    }

    pub fn with_environment(self, key: &str, value: &str) -> (s: Self)
        ensures
            s.environment@.len() == self.environment@.len() + 1,
            s.environment@.drop_last() == self.environment@,
            s.environment@.last().0@ == key@,
            s.environment@.last().1@ == value@,
            s == (SystemdService { environment: s.environment, ..self }),
    {
        let mut s = self;
        s.environment.push((owned(key), owned(value)));
        assert(s.environment@.drop_last() =~= self.environment@);
        s
    }

    pub fn with_resource_limits(self, limits: ResourceLimits) -> (s: Self)
        ensures
            s == (SystemdService { resource_limits: limits, ..self }),
    {
        SystemdService { resource_limits: limits, ..self }
    }

    pub fn with_security(self, no_new_privileges: bool, private_tmp: bool) -> (s: Self)
        ensures
            s == (SystemdService { no_new_privileges, private_tmp, ..self }),
    {
        SystemdService { no_new_privileges, private_tmp, ..self }
    }

    /// The unit file text.
    pub fn render(&self) -> (r: String)
        ensures
            r@ == render_unit(*self),
            occur_in_order(
                r@,
                self.environment@.map_values(
                    |kv: (String, String)| "Environment="@ + kv.0@ + "="@ + kv.1@ + "\n"@,
                ).push("ExecStart="@ + self.exec_start@ + "\n"@),
            ),
    {
        proof {
            law_unit_lists_environment(*self);
        }
        let mut output = String::new();
        push_str(&mut output, "[Unit]\n");
        push_str(&mut output, "Description=");
        push_str(&mut output, self.description.as_str());
        push_str(&mut output, "\n");
        push_str(&mut output, "After=network.target\n\n");
        push_str(&mut output, "[Service]\n");
        push_str(&mut output, "Type=simple\n");
        push_opt_line(&mut output, "User=", &self.user);
        push_opt_line(&mut output, "Group=", &self.group);
        push_opt_line(&mut output, "EnvironmentFile=", &self.environment_file);
        let mut i: usize = 0;
        let ghost before_env = output@;
        while i < self.environment.len()
            invariant
                0 <= i <= self.environment.len(),
                output@ == before_env + environment_lines(self.environment@.take(i as int)),
            decreases self.environment.len() - i,
        {
            let (key, value) = &self.environment[i];
            push_str(&mut output, "Environment=");
            push_str(&mut output, key.as_str());
            push_str(&mut output, "=");
            push_str(&mut output, value.as_str());
            push_str(&mut output, "\n");
            i = i + 1;
            proof {
                let t = self.environment@.take(i as int);
                assert(t.drop_last() =~= self.environment@.take(i - 1));
                assert(output@ =~= before_env + environment_lines(t));
            }
        }
        assert(self.environment@.take(self.environment.len() as int) == self.environment@);
        push_str(&mut output, "ExecStart=");
        push_str(&mut output, self.exec_start.as_str());
        push_str(&mut output, "\n");
        push_str(&mut output, "WorkingDirectory=");
        push_str(&mut output, self.working_directory.as_str());
        push_str(&mut output, "\n");
        push_str(&mut output, "Restart=");
        push_str(&mut output, self.restart.as_str());
        push_str(&mut output, "\n");
        push_str(&mut output, "RestartSec=");
        push_decimal(&mut output, self.restart_sec);
        push_str(&mut output, "\n");
        push_opt_line(&mut output, "MemoryHigh=", &self.resource_limits.memory_high);
        push_opt_line(&mut output, "MemoryMax=", &self.resource_limits.memory_max);
        push_opt_line(&mut output, "CPUQuota=", &self.resource_limits.cpu_quota);
        push_opt_num_line(&mut output, "TasksMax=", self.resource_limits.tasks_max);
        push_opt_num_line(&mut output, "LimitNOFILE=", self.resource_limits.limit_nofile);
        if self.no_new_privileges {
            push_str(&mut output, "NoNewPrivileges=true\n");
        }
        if self.private_tmp {
            push_str(&mut output, "PrivateTmp=true\n");
        }
        push_str(&mut output, "\n[Install]\n");
        push_str(&mut output, "WantedBy=multi-user.target\n");
        assert(output@ =~= render_unit(*self));
        output
    }
}

/// One `KEY=value` line per pair, in order.
pub open spec fn render_pairs(entries: Seq<(&str, &str)>) -> Seq<char>
    decreases entries.len(),
{
    if entries.len() == 0 {
        Seq::empty()
    } else {
        render_pairs(entries.drop_last()) + entries.last().0@ + "="@ + entries.last().1@ + "\n"@
    }
}

/// Renders env file text: `KEY=value` and a newline per pair, in order.
/// The texts of key and value pairs.
pub open spec fn pairs_view(entries: Seq<(&str, &str)>) -> Seq<(Seq<char>, Seq<char>)> {
    entries.map_values(|e: (&str, &str)| (e.0@, e.1@))
}

proof fn lemma_render_pairs_is_env_text(entries: Seq<(&str, &str)>)
    ensures
        render_pairs(entries) == crate::env_file::render_env(pairs_view(entries)),
    decreases entries.len(),
{
    if entries.len() > 0 {
        lemma_render_pairs_is_env_text(entries.drop_last());
        assert(pairs_view(entries.drop_last()) =~= pairs_view(entries).drop_last());
        reveal_strlit("=");
        reveal_strlit("\n");
        assert(render_pairs(entries) =~= crate::env_file::render_env(pairs_view(entries)));
    }
}

/// An env file rendered for a deployment reads back, with the env file
/// parser, as the same pairs in the same order, when every key is valid and
/// every value lies on one line without surrounding whitespace or quotes.
pub proof fn law_rendered_env_file_parses_back(entries: Seq<(&str, &str)>)
    requires
        forall|i: int|
            0 <= i < entries.len() ==> crate::env_file::round_trips(
                #[trigger] pairs_view(entries)[i],
            ),
    ensures
        crate::env_file::parse_env(render_pairs(entries)) == Ok::<
            Seq<(Seq<char>, Seq<char>)>,
            (int, Seq<char>),
        >(pairs_view(entries)),
{
    lemma_render_pairs_is_env_text(entries);
    crate::env_file::law_render_then_parse(pairs_view(entries));
}

pub fn render_env_file(entries: &[(&str, &str)]) -> (r: String)
    ensures
        r@ == render_pairs(entries@),
{
    let mut output = String::new();
    let mut i: usize = 0;
    while i < entries.len()
        invariant
            0 <= i <= entries.len(),
            output@ == render_pairs(entries@.take(i as int)),
        decreases entries.len() - i,
    {
        let (key, value) = entries[i];
        push_str(&mut output, key);
        push_str(&mut output, "=");
        push_str(&mut output, value);
        push_str(&mut output, "\n");
        i = i + 1;
        proof {
            let t = entries@.take(i as int);
            assert(t.drop_last() =~= entries@.take(i - 1));
            assert(output@ =~= render_pairs(t));
        }
    }
    assert(entries@.take(entries.len() as int) == entries@);
    output
}

} // verus!
