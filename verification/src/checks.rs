use vstd::prelude::*;

use crate::text::{contains_u64, push_str};

verus! {

/// Whether the member who invoked a command has `role`; `None` for the roles
/// means the command was not invoked by a guild member (for instance in a
/// direct message), who has no role.
pub fn is_some_role(member_roles: &Option<Vec<u64>>, role: u64) -> (b: bool)
    ensures
        b == match member_roles {
            Some(r) => r@.contains(role),
            None => false,
        },
{
    match member_roles {
        None => false,
        Some(roles) => contains_u64(roles, role),
    }
}

/// The outcome of a permission check: whether the command may run and, when
/// it may not, the private reply to send.
pub struct RoleCheck {
    pub allowed: bool,
    pub reply: Option<String>,
}

/// The check of moderator-only commands.
pub fn check_is_moderator(member_roles: &Option<Vec<u64>>, mod_role: u64) -> (c: RoleCheck)
    ensures
        c.allowed == match member_roles {
            Some(r) => r@.contains(mod_role),
            None => false,
        },
        c.allowed ==> c.reply is None,
        !c.allowed ==> (c.reply matches Some(m) && m@ == "This command is only available to moderators."@),
{
    let allowed = is_some_role(member_roles, mod_role);
    if allowed {
        RoleCheck { allowed, reply: None }
    } else {
        let mut m = String::new();
        push_str(&mut m, "This command is only available to moderators.");
        RoleCheck { allowed, reply: Some(m) }
    }
}

/// The check of raider-only commands.
pub fn check_is_raider(member_roles: &Option<Vec<u64>>, raider_role: u64) -> (c: RoleCheck)
    ensures
        c.allowed == match member_roles {
            Some(r) => r@.contains(raider_role),
            None => false,
        },
        c.allowed ==> c.reply is None,
        !c.allowed ==> (c.reply matches Some(m) && m@ == "This command is only available to raiders."@),
{
    let allowed = is_some_role(member_roles, raider_role);
    if allowed {
        RoleCheck { allowed, reply: None }
    } else {
        let mut m = String::new();
        push_str(&mut m, "This command is only available to raiders.");
        RoleCheck { allowed, reply: Some(m) }
    }
}

} // verus!
