//! Built-in role policy: which capability codes the `owner`, `admin` and
//! `viewer` roles are granted.
use vstd::prelude::*;

use crate::text::{chars_eq, chars_of, ends_with, last_index, owned, rfind_char, starts_with, str_eq, sub_chars};

verus! {

pub const SYSTEM_WILDCARD: &'static str = "*";

pub const OWNER_ROLE_CODE: &'static str = "owner";

pub const ADMIN_ROLE_CODE: &'static str = "admin";

pub const VIEWER_ROLE_CODE: &'static str = "viewer";

pub const DEFAULT_DEPLOY_CAPABILITY_PREFIX: &'static str = "manage:deploy:";

pub const DEFAULT_DEPLOY_VIEW_CAPABILITY: &'static str = "manage:deploy:list";

/// The actions that count as viewing: `list`, `view` and `options`.
pub const VIEW_ACTIONS: [&'static str; 3] = ["list", "view", "options"];

/// The view actions, as a vector.
fn view_actions() -> (r: Vec<&'static str>)
    ensures
        r@.len() == 3,
        r@[0]@ == "list"@,
        r@[1]@ == "view"@,
        r@[2]@ == "options"@,
{
    let actions = VIEW_ACTIONS;
    proof {
        assert(actions@ == seq!["list", "view", "options"]);
    }
    vec![actions[0], actions[1], actions[2]]
}

/// The deploy capability prefix, the deploy view capability and the view
/// actions a policy was made with.
pub struct RolePolicyView {
    pub deploy_prefix: Seq<char>,
    pub deploy_view: Seq<char>,
    pub view_actions: Seq<Seq<char>>,
}

/// A role policy, parameterized by how deploy capabilities are named and
/// which actions count as viewing.
#[derive(Debug, Clone, PartialEq, Eq)]
pub struct RolePolicy {
    deploy_capability_prefix: String,
    deploy_view_capability: String,
    view_actions: Vec<String>,
}

/// The character views of a list of strings.
pub open spec fn strings_view(v: Seq<String>) -> Seq<Seq<char>> {
    v.map_values(|s: String| s@)
}

/// The character views of a list of string slices.
pub open spec fn strs_view(v: Seq<&str>) -> Seq<Seq<char>> {
    v.map_values(|s: &str| s@)
}

impl View for RolePolicy {
    type V = RolePolicyView;

    closed spec fn view(&self) -> RolePolicyView {
        RolePolicyView {
            deploy_prefix: self.deploy_capability_prefix@,
            deploy_view: self.deploy_view_capability@,
            view_actions: strings_view(self.view_actions@),
        }
    }
}

/// The action of a capability code: the text after its last `:`, or the
/// whole code when it has none.
pub open spec fn capability_action(cap: Seq<char>) -> Seq<char> {
    match last_index(cap, ':') {
        Some(i) => cap.skip(i + 1),
        None => cap,
    }
}

/// A deploy capability: the deploy prefix followed by `*`, or any code
/// starting with the deploy prefix.
pub open spec fn is_deploy_cap(p: RolePolicyView, cap: Seq<char>) -> bool {
    cap == p.deploy_prefix + seq!['*'] || p.deploy_prefix.is_prefix_of(cap)
}

/// A deploy capability other than the deploy view capability.
pub open spec fn is_deploy_operation_cap(p: RolePolicyView, cap: Seq<char>) -> bool {
    is_deploy_cap(p, cap) && cap != p.deploy_view
}

/// A capability that can be assigned on its own: not the system wildcard,
/// not a `:*` wildcard, not a deploy operation.
pub open spec fn is_assignable_leaf_cap(p: RolePolicyView, cap: Seq<char>) -> bool {
    &&& cap != SYSTEM_WILDCARD@
    &&& !(":*"@.is_suffix_of(cap))
    &&& !is_deploy_operation_cap(p, cap)
}

/// A capability whose action is one of the view actions.
pub open spec fn is_view_cap(p: RolePolicyView, cap: Seq<char>) -> bool {
    exists|j: int| 0 <= j < p.view_actions.len() && #[trigger] p.view_actions[j] == capability_action(cap)
}

/// Whether the built-in role `role` is granted `cap`: the owner only the
/// system wildcard, the admin every assignable leaf capability, the viewer
/// the assignable leaf capabilities that view; any other role nothing.
pub open spec fn role_allows(p: RolePolicyView, role: Seq<char>, cap: Seq<char>) -> bool {
    if role == OWNER_ROLE_CODE@ {
        cap == SYSTEM_WILDCARD@
    } else if role == ADMIN_ROLE_CODE@ {
        is_assignable_leaf_cap(p, cap)
    } else if role == VIEWER_ROLE_CODE@ {
        is_assignable_leaf_cap(p, cap) && is_view_cap(p, cap)
    } else {
        false
    }
}

/// The default policy: deploy prefix `manage:deploy:`, deploy view
/// capability `manage:deploy:list`, view actions `list`, `view`, `options`.
pub open spec fn default_policy() -> RolePolicyView {
    RolePolicyView {
        deploy_prefix: DEFAULT_DEPLOY_CAPABILITY_PREFIX@,
        deploy_view: DEFAULT_DEPLOY_VIEW_CAPABILITY@,
        view_actions: seq!["list"@, "view"@, "options"@],
    }
}

impl RolePolicy {
    pub fn new(
        deploy_capability_prefix: &str,
        deploy_view_capability: &str,
        view_actions: &[&str],
    ) -> (p: Self)
        ensures
            p@.deploy_prefix == deploy_capability_prefix@,
            p@.deploy_view == deploy_view_capability@,
            p@.view_actions == strs_view(view_actions@),
    {
        let mut actions: Vec<String> = Vec::new();
        let mut i: usize = 0;
        while i < view_actions.len()
            invariant
                0 <= i <= view_actions.len(),
                strings_view(actions@) == strs_view(view_actions@.take(i as int)),
            decreases view_actions.len() - i,
        {
            let a = owned(view_actions[i]);
            let ghost prev = strs_view(view_actions@.take(i as int));
            let ghost cur = strs_view(view_actions@.take(i + 1));
            assert(cur =~= prev.push(view_actions@[i as int]@));
            let ghost before = actions@;
            let ghost av = a@;
            actions.push(a);
            assert(strings_view(actions@) =~= strings_view(before).push(av));
            i = i + 1;
        }
        assert(view_actions@.take(view_actions.len() as int) == view_actions@);
        RolePolicy {
            deploy_capability_prefix: owned(deploy_capability_prefix),
            deploy_view_capability: owned(deploy_view_capability),
            view_actions: actions,
        }
    }

    pub fn rustzen_default() -> (p: Self)
        ensures
            p@ == default_policy(),
    {
        let actions = view_actions();
        let p = Self::new(
            DEFAULT_DEPLOY_CAPABILITY_PREFIX,
            DEFAULT_DEPLOY_VIEW_CAPABILITY,
            actions.as_slice(),
        );
        assert(p@.view_actions =~= default_policy().view_actions);
        p
    }

    pub fn deploy_capability_prefix(&self) -> (r: &str)
        ensures
            r@ == self@.deploy_prefix,
    {
        self.deploy_capability_prefix.as_str()
    }

    pub fn deploy_view_capability(&self) -> (r: &str)
        ensures
            r@ == self@.deploy_view,
    {
        self.deploy_view_capability.as_str()
    }

    pub fn role_allows_capability(&self, role_code: &str, capability_code: &str) -> (b: bool)
        ensures
            b == role_allows(self@, role_code@, capability_code@),
    {
        if str_eq(role_code, OWNER_ROLE_CODE) {
            str_eq(capability_code, SYSTEM_WILDCARD)
        } else if str_eq(role_code, ADMIN_ROLE_CODE) {
            self.is_assignable_leaf_capability(capability_code)
        } else if str_eq(role_code, VIEWER_ROLE_CODE) {
            self.is_assignable_leaf_capability(capability_code) && self.is_view_capability(
                capability_code,
            )
        } else {
            false
        }
    }

    pub fn is_assignable_leaf_capability(&self, capability_code: &str) -> (b: bool)
        ensures
            b == is_assignable_leaf_cap(self@, capability_code@),
    {
        let cap = chars_of(capability_code);
        let suffix = chars_of(":*");
        !str_eq(capability_code, SYSTEM_WILDCARD) && !ends_with(&cap, &suffix)
            && !self.is_deploy_operation_capability(capability_code)
    }

    pub fn is_view_capability(&self, capability_code: &str) -> (b: bool)
        ensures
            b == is_view_cap(self@, capability_code@),
    {
        let cap = chars_of(capability_code);
        let action = match rfind_char(&cap, ':') {
            Some(i) => sub_chars(&cap, i + 1, cap.len()),
            None => sub_chars(&cap, 0, cap.len()),
        };
        assert(action@ == capability_action(capability_code@));
        let mut j: usize = 0;
        while j < self.view_actions.len()
            invariant
                0 <= j <= self.view_actions.len(),
                action@ == capability_action(capability_code@),
                forall|k: int|
                    0 <= k < j ==> #[trigger] self@.view_actions[k] != capability_action(
                        capability_code@,
                    ),
            decreases self.view_actions.len() - j,
        {
            let candidate = chars_of(self.view_actions[j].as_str());
            if chars_eq(&candidate, &action) {
                assert(self@.view_actions[j as int] == capability_action(capability_code@));
                return true;
            }
            j = j + 1;
        }
        false
    }

    pub fn is_deploy_capability(&self, capability_code: &str) -> (b: bool)
        ensures
            b == is_deploy_cap(self@, capability_code@),
    {
        let cap = chars_of(capability_code);
        let prefix = chars_of(self.deploy_capability_prefix.as_str());
        let mut wildcard = prefix.clone();
        wildcard.push('*');
        assert(wildcard@ == prefix@ + seq!['*']);
        chars_eq(&cap, &wildcard) || starts_with(&cap, &prefix)
    }

    pub fn is_deploy_operation_capability(&self, capability_code: &str) -> (b: bool)
        ensures
            b == is_deploy_operation_cap(self@, capability_code@),
    {
        self.is_deploy_capability(capability_code) && !str_eq(
            capability_code,
            self.deploy_view_capability.as_str(),
        )
    }
}

impl Default for RolePolicy {
    fn default() -> (p: Self)
        ensures
            p@ == default_policy(),
    {
        Self::rustzen_default()
    }
}

/// Whether the default policy grants `capability_code` to `role_code`.
pub fn default_role_allows_capability(role_code: &str, capability_code: &str) -> (b: bool)
    ensures
        b == role_allows(default_policy(), role_code@, capability_code@),
{
    RolePolicy::rustzen_default().role_allows_capability(role_code, capability_code)
}

/// The codes of `capability_codes` that the default policy grants to
/// `role_code`, in catalog order.
pub fn default_role_capability_codes(role_code: &str, capability_codes: &[&str]) -> (r: Vec<
    String,
>)
    ensures
        strings_view(r@) == strs_view(capability_codes@).filter(
            |c: Seq<char>| role_allows(default_policy(), role_code@, c),
        ),
{
    let policy = RolePolicy::rustzen_default();
    let ghost pred = |c: Seq<char>| role_allows(default_policy(), role_code@, c);
    let mut r: Vec<String> = Vec::new();
    let mut i: usize = 0;
    while i < capability_codes.len()
        invariant
            0 <= i <= capability_codes.len(),
            policy@ == default_policy(),
            pred == (|c: Seq<char>| role_allows(default_policy(), role_code@, c)),
            strings_view(r@) == strs_view(capability_codes@.take(i as int)).filter(pred),
        decreases capability_codes.len() - i,
    {
        let code = capability_codes[i];
        proof {
            reveal(Seq::filter);
        }
        let ghost prev = strs_view(capability_codes@.take(i as int));
        let ghost cur = strs_view(capability_codes@.take(i + 1));
        assert(cur.drop_last() =~= prev);
        assert(cur.last() == code@);
        if policy.role_allows_capability(role_code, code) {
            r.push(owned(code));
            assert(strings_view(r@) =~= cur.filter(pred));
        } else {
            assert(strings_view(r@) =~= cur.filter(pred));
        }
        i = i + 1;
    }
    assert(capability_codes@.take(capability_codes.len() as int) == capability_codes@);
    proof {
        reveal(Seq::filter);
    }
    r
}

// ---------------------------------------------------------------------------
// Laws
// ---------------------------------------------------------------------------

/// The owner role is granted the system wildcard and nothing else.
pub proof fn law_owner_only_wildcard(p: RolePolicyView, cap: Seq<char>)
    ensures
        role_allows(p, OWNER_ROLE_CODE@, cap) <==> cap == SYSTEM_WILDCARD@,
{
}

/// No role other than the owner is granted the system wildcard.
pub proof fn law_wildcard_owner_only(p: RolePolicyView, role: Seq<char>)
    requires
        role != OWNER_ROLE_CODE@,
    ensures
        !role_allows(p, role, SYSTEM_WILDCARD@),
{
}

/// Every capability the viewer is granted, the admin is granted too.
pub proof fn law_viewer_within_admin(p: RolePolicyView, cap: Seq<char>)
    requires
        role_allows(p, VIEWER_ROLE_CODE@, cap),
    ensures
        role_allows(p, ADMIN_ROLE_CODE@, cap),
{
    reveal_strlit("owner");
    reveal_strlit("admin");
    reveal_strlit("viewer");
    assert(VIEWER_ROLE_CODE@.len() == 6);
    assert(OWNER_ROLE_CODE@.len() == 5);
    assert(VIEWER_ROLE_CODE@ != OWNER_ROLE_CODE@);
    assert(VIEWER_ROLE_CODE@ != ADMIN_ROLE_CODE@);
    assert(ADMIN_ROLE_CODE@[0] != OWNER_ROLE_CODE@[0]);
}

/// Neither the admin nor the viewer is ever granted a deploy operation or a
/// `:*` wildcard capability.
pub proof fn law_no_deploy_operation_below_owner(p: RolePolicyView, role: Seq<char>, cap: Seq<char>)
    requires
        role != OWNER_ROLE_CODE@,
        role_allows(p, role, cap),
    ensures
        !is_deploy_operation_cap(p, cap),
        !(":*"@.is_suffix_of(cap)),
{
}

/// A role other than owner, admin and viewer is granted nothing.
pub proof fn law_unknown_role_gets_nothing(p: RolePolicyView, role: Seq<char>, cap: Seq<char>)
    requires
        role != OWNER_ROLE_CODE@,
        role != ADMIN_ROLE_CODE@,
        role != VIEWER_ROLE_CODE@,
    ensures
        !role_allows(p, role, cap),
{
}


/// What each built-in role is granted, for any policy: the owner only the
/// system wildcard; the admin every capability other than the system
/// wildcard, a `:*` wildcard, or a code under the deploy prefix other than
/// the deploy view capability; the viewer what the admin is granted whose
/// action (the text after the last `:`) is a view action; any other role
/// nothing.
pub proof fn law_role_grants(p: RolePolicyView, role: Seq<char>, cap: Seq<char>)
    ensures
        role == OWNER_ROLE_CODE@ ==> (role_allows(p, role, cap) <==> cap == SYSTEM_WILDCARD@),
        role == ADMIN_ROLE_CODE@ ==> (role_allows(p, role, cap) <==> {
            &&& cap != SYSTEM_WILDCARD@
            &&& !(":*"@.is_suffix_of(cap))
            &&& !(p.deploy_prefix.is_prefix_of(cap) && cap != p.deploy_view)
        }),
        role == VIEWER_ROLE_CODE@ ==> (role_allows(p, role, cap) <==> role_allows(
            p,
            ADMIN_ROLE_CODE@,
            cap,
        ) && p.view_actions.contains(capability_action(cap))),
        role != OWNER_ROLE_CODE@ && role != ADMIN_ROLE_CODE@ && role != VIEWER_ROLE_CODE@
            ==> !role_allows(p, role, cap),
{
    reveal_strlit("owner");
    reveal_strlit("admin");
    reveal_strlit("viewer");
    assert(VIEWER_ROLE_CODE@.len() == 6);
    assert(OWNER_ROLE_CODE@.len() == 5);
    assert(VIEWER_ROLE_CODE@ != OWNER_ROLE_CODE@);
    assert(VIEWER_ROLE_CODE@ != ADMIN_ROLE_CODE@);
    assert(ADMIN_ROLE_CODE@[0] != OWNER_ROLE_CODE@[0]);
    assert(ADMIN_ROLE_CODE@ != OWNER_ROLE_CODE@);
    let wild = p.deploy_prefix + seq!['*'];
    if cap == wild {
        assert(wild.subrange(0, p.deploy_prefix.len() as int) =~= p.deploy_prefix);
    }
    assert(is_deploy_cap(p, cap) <==> p.deploy_prefix.is_prefix_of(cap));
    assert(is_view_cap(p, cap) <==> p.view_actions.contains(capability_action(cap)));
}

} // verus!
