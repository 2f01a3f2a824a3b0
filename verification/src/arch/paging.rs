//! Access rights of the pages mapped for the Ring 3 probe.
use vstd::prelude::*;

verus! {

/// What a user page holds.
#[derive(Debug, Clone, Copy, PartialEq, Eq, Structural)]
pub enum UserPageKind {
    /// Code the user task executes.
    Code,
    /// The user task's stack.
    Stack,
}

/// Access rights of a page-table entry.
#[derive(Debug, Clone, Copy, PartialEq, Eq, Structural)]
pub struct PageAccess {
    pub present: bool,
    pub writable: bool,
    pub user_accessible: bool,
    pub no_execute: bool,
}

/// Rights of a user page of the given kind.
pub open spec fn user_access_of(kind: UserPageKind) -> PageAccess {
    match kind {
        UserPageKind::Code => PageAccess {
            present: true,
            writable: false,
            user_accessible: true,
            no_execute: false,
        },
        UserPageKind::Stack => PageAccess {
            present: true,
            writable: true,
            user_accessible: true,
            no_execute: true,
        },
    }
}

/// Rights of a user page: code is readable and executable but not writable;
/// the stack is writable but not executable. Both are present and reachable
/// from Ring 3.
pub fn user_page_access(kind: UserPageKind) -> (a: PageAccess)
    ensures
        a == user_access_of(kind),
{
    match kind {
        UserPageKind::Code => PageAccess {
            present: true,
            writable: false,
            user_accessible: true,
            no_execute: false,
        },
        UserPageKind::Stack => PageAccess {
            present: true,
            writable: true,
            user_accessible: true,
            no_execute: true,
        },
    }
}

/// Rights given to page tables created on the way to a user page: present,
/// writable and reachable from Ring 3, so that the leaf entry alone decides.
pub fn parent_table_access() -> (a: PageAccess)
    ensures
        a == (PageAccess { present: true, writable: true, user_accessible: true, no_execute: false }),
{
    PageAccess { present: true, writable: true, user_accessible: true, no_execute: false }
}

/// No user page is both writable and executable, and every user page is
/// reachable from Ring 3.
pub proof fn lemma_user_pages_are_writable_xor_executable(kind: UserPageKind)
    ensures
        user_access_of(kind).writable ==> user_access_of(kind).no_execute,
        user_access_of(kind).user_accessible,
        user_access_of(kind).present,
{
}

} // verus!
