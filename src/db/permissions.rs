//! The permission table: each user's grants.

use vstd::prelude::*;

use super::{DB, DBView, StoreOp, StoreOpView, grants_of, is_first_index, lemma_remove_first, remove_first};
use crate::data::{Permission, PermissionView, permission_views};
use crate::ids::UserID;

verus! {

impl DB {
    /// Whether the user is a global moderator.
    pub fn is_admin(&self, user: &UserID) -> (r: bool)
        requires
            self.wf(),
        ensures
            r == grants_of(self@.permissions, user@).contains(PermissionView::Overlord),
    {
        let grants = match self.permissions.get(&user.0) {
            Some(g) => g,
            None => return false,
        };
        let mut i: usize = 0;
        while i < grants.len()
            invariant
                i <= grants@.len(),
                permission_views(grants@) == grants_of(self@.permissions, user@),
                forall|j: int| 0 <= j < i ==> permission_views(grants@)[j] != PermissionView::Overlord,
            decreases grants@.len() - i,
        {
            match &grants[i] {
                Permission::Overlord => {
                    assert(permission_views(grants@)[i as int] == PermissionView::Overlord);
                    return true;
                },
                Permission::TopicOwner(_) => {},
            }
            i = i + 1;
        }
        false
    }

    /// Adds a grant to the user.
    pub fn grant_permission(&mut self, user: &UserID, permission: Permission)
        requires
            old(self).wf(),
        ensures
            final(self).wf(),
            final(self)@ == (DBView {
                permissions: old(self)@.permissions.insert(
                    user@,
                    grants_of(old(self)@.permissions, user@).push(permission@),
                ),
                pending: old(self)@.pending.push(StoreOpView::StorePermissions),
                ..old(self)@
            }),
    {
        self.push_grant(user, permission);
        self.pending.push(StoreOp::StorePermissions);
        assert(self@.pending =~= old(self)@.pending.push(StoreOpView::StorePermissions));
    }

    /// Takes from the user the first grant equal to `permission`. Gives
    /// `false`, changing nothing, if the user holds no such grant.
    pub fn revoke_permission(&mut self, user: &UserID, permission: Permission) -> (r: bool)
        requires
            old(self).wf(),
        ensures
            final(self).wf(),
            r == grants_of(old(self)@.permissions, user@).contains(permission@),
            r ==> final(self)@ == (DBView {
                permissions: old(self)@.permissions.insert(
                    user@,
                    remove_first(grants_of(old(self)@.permissions, user@), permission@),
                ),
                pending: old(self)@.pending.push(StoreOpView::StorePermissions),
                ..old(self)@
            }),
            !r ==> final(self)@ == old(self)@,
    {
        let pos = match self.permissions.get(&user.0) {
            Some(grants) => {
                let mut i: usize = 0;
                let mut found: Option<usize> = None;
                while i < grants.len()
                    invariant_except_break
                        found is None,
                    invariant
                        i <= grants@.len(),
                        permission_views(grants@) == grants_of(self@.permissions, user@),
                        forall|j: int| 0 <= j < i ==> permission_views(grants@)[j] != permission@,
                    ensures
                        match found {
                            Some(p) => is_first_index(permission_views(grants@), permission@, p as int),
                            None => forall|j: int|
                                0 <= j < grants@.len() ==> permission_views(grants@)[j] != permission@,
                        },
                    decreases grants@.len() - i,
                {
                    if grants[i] == permission {
                        found = Some(i);
                        break;
                    }
                    i = i + 1;
                }
                found
            },
            None => None,
        };
        let pos = match pos {
            Some(p) => p,
            None => {
                proof {
                    let g = grants_of(old(self)@.permissions, user@);
                    if g.contains(permission@) {
                        let j = choose|j: int| 0 <= j < g.len() && g[j] == permission@;
                    }
                }
                return false;
            },
        };
        let mut grants = match self.permissions.remove(&user.0) {
            Some(g) => g,
            None => return false,
        };
        let ghost g0 = permission_views(grants@);
        proof {
            lemma_remove_first(g0, permission@, pos as int);
        }
        grants.remove(pos);
        assert(permission_views(grants@) =~= g0.remove(pos as int));
        self.permissions.insert(user.0.clone(), grants);
        self.pending.push(StoreOp::StorePermissions);
        assert(self@.permissions =~= old(self)@.permissions.insert(
            user@,
            remove_first(g0, permission@),
        ));
        assert(self@.pending =~= old(self)@.pending.push(StoreOpView::StorePermissions));
        true
    }
}

} // verus!
