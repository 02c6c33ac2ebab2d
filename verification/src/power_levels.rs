//! The power levels of a room, as far as a migration reads them.

use vstd::prelude::*;

verus! {

/// The power level that a room gives to one user by name.
#[derive(Clone, Debug, PartialEq, Eq)]
pub struct UserLevel {
    pub user: String,
    pub level: i64,
}

impl View for UserLevel {
    type V = (Seq<char>, i64);

    open spec fn view(&self) -> (Seq<char>, i64) {
        (self.user@, self.level)
    }
}

/// The levels that a room's power-levels state holds: those given to users by
/// name, and the one of everybody else.
#[derive(Clone, Debug, PartialEq, Eq)]
pub struct PowerLevels {
    pub users: Vec<UserLevel>,
    pub users_default: i64,
}

/// What a `PowerLevels` stands for.
pub struct PowerLevelsView {
    pub users: Seq<(Seq<char>, i64)>,
    pub users_default: i64,
}

impl View for PowerLevels {
    type V = PowerLevelsView;

    open spec fn view(&self) -> PowerLevelsView {
        PowerLevelsView {
            users: Seq::new(self.users@.len(), |i: int| self.users@[i]@),
            users_default: self.users_default,
        }
    }
}

/// The level of `user`: the one of the first entry that names the user, and
/// the default where no entry does.
pub open spec fn level_for(users: Seq<(Seq<char>, i64)>, users_default: i64, user: Seq<char>) -> i64
    decreases users.len(),
{
    if users.len() == 0 {
        users_default
    } else if users[0].0 == user {
        users[0].1
    } else {
        level_for(users.drop_first(), users_default, user)
    }
}

impl PowerLevelsView {
    /// The level of `user` under these power levels.
    pub open spec fn for_user(self, user: Seq<char>) -> i64 {
        level_for(self.users, self.users_default, user)
    }
}

impl PowerLevels {
    /// The level of `user` under these power levels.
    pub fn for_user(&self, user: &str) -> (level: i64)
        ensures
            level == self@.for_user(user@),
    {
        let wanted: String = user.to_owned();
        let n: usize = self.users.len();
        let mut i: usize = 0;
        assert(self@.users.subrange(0, n as int) =~= self@.users);
        while i < n
            invariant
                i <= n,
                n == self.users@.len(),
                wanted@ == user@,
                self@.for_user(user@) == level_for(
                    self@.users.subrange(i as int, n as int),
                    self.users_default,
                    user@,
                ),
            decreases n - i,
        {
            assert(self@.users.subrange(i as int, n as int).drop_first() =~= self@.users.subrange(
                i as int + 1,
                n as int,
            ));
            assert(self@.users.subrange(i as int, n as int)[0] == self.users@[i as int]@);
            if self.users[i].user == wanted {
                return self.users[i].level;
            }
            i = i + 1;
        }
        self.users_default
    }
}

} // verus!
