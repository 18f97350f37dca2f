//! Graph-store operations helper: the pure selection logic behind the
//! connectivity and warmup tooling.
//!
//! The tooling measures fan-in performance against users with very
//! different follower counts.  Given the population ordered by follower
//! count, highest first, `find_representative_users` picks the
//! representatives: the top user, the quartile marks where the population
//! is large enough, and the bottom user unless it would repeat the last
//! pick.  The surrounding queries and measurements run outside this crate
//! and hand the rows in as plain values.

use vstd::prelude::*;

verus! {

/// The views of labelled representative rows.
pub open spec fn rep_views(v: Seq<(String, String, i64)>) -> Seq<(Seq<char>, Seq<char>, i64)> {
    v.map_values(|p: (String, String, i64)| (p.0@, p.1@, p.2))
}

/// The representatives picked from a population ordered by follower count:
/// the top user, the quartile marks when more than four users exist, the
/// median when more than two do, and the bottom user unless it would repeat
/// the preceding pick while five are already chosen.
pub open spec fn representatives_of(users: Seq<(Seq<char>, i64)>) -> Seq<(Seq<char>, Seq<char>, i64)> {
    if users.len() == 0 {
        Seq::empty()
    } else {
        let total = users.len() as int;
        let s1 = seq![("Most followers"@, users[0].0, users[0].1)];
        let s2 = if total > 4 {
            s1.push(("High followers"@, users[total / 4].0, users[total / 4].1))
        } else {
            s1
        };
        let s3 = if total > 2 {
            s2.push(("Medium followers"@, users[total / 2].0, users[total / 2].1))
        } else {
            s2
        };
        let s4 = if total > 4 {
            s3.push(("Low followers"@, users[total * 3 / 4].0, users[total * 3 / 4].1))
        } else {
            s3
        };
        if s4.len() < 5 || s4.last().1 != users.last().0 {
            s4.push(("Lowest followers"@, users.last().0, users.last().1))
        } else {
            s4
        }
    }
}

/// The views of `(user id, follower count)` rows.
pub open spec fn row_views(v: Seq<(String, i64)>) -> Seq<(Seq<char>, i64)> {
    v.map_values(|p: (String, i64)| (p.0@, p.1))
}

/// Graph-store operations helper.
pub struct N4jOps;

impl N4jOps {
    /// Pick representative users with varying follower counts from the
    /// population ordered by follower count, highest first; an empty
    /// population has no representatives.
    pub fn find_representative_users(users: &Vec<(String, i64)>) -> (r: Option<
        Vec<(String, String, i64)>,
    >)
        ensures
            match r {
                None => users@.len() == 0,
                Some(v) => users@.len() > 0 && rep_views(v@) == representatives_of(
                    row_views(users@),
                ),
            },
    {
        if users.len() == 0 {
            return None;
        }
        let ghost rows = row_views(users@);
        let total = users.len();
        let mut reps: Vec<(String, String, i64)> = Vec::new();
        reps.push(("Most followers".to_owned(), users[0].0.clone(), users[0].1));
        let ghost s1 = seq![("Most followers"@, rows[0].0, rows[0].1)];
        proof {
            assert(rep_views(reps@) =~= s1);
        }
        if total > 4 {
            let idx = total / 4;
            let ghost pre = rep_views(reps@);
            reps.push(("High followers".to_owned(), users[idx].0.clone(), users[idx].1));
            proof {
                assert(rep_views(reps@) =~= pre.push(
                    ("High followers"@, rows[idx as int].0, rows[idx as int].1),
                ));
            }
        }
        if total > 2 {
            let idx = total / 2;
            let ghost pre = rep_views(reps@);
            reps.push(("Medium followers".to_owned(), users[idx].0.clone(), users[idx].1));
            proof {
                assert(rep_views(reps@) =~= pre.push(
                    ("Medium followers"@, rows[idx as int].0, rows[idx as int].1),
                ));
            }
        }
        if total > 4 {
            proof {
                assert((total as u128) * 3 <= 0xFFFFFFFFFFFFFFFFu128 * 3) by (nonlinear_arith)
                    requires
                        (total as u128) <= 0xFFFFFFFFFFFFFFFFu128,
                ;
            }
            let idx128: u128 = (total as u128) * 3 / 4;
            proof {
                assert((total as u128) * 3 / 4 < (total as u128)) by (nonlinear_arith)
                    requires
                        (total as u128) >= 1,
                ;
            }
            let idx = idx128 as usize;
            let ghost pre = rep_views(reps@);
            reps.push(("Low followers".to_owned(), users[idx].0.clone(), users[idx].1));
            proof {
                assert(rep_views(reps@) =~= pre.push(
                    ("Low followers"@, rows[idx as int].0, rows[idx as int].1),
                ));
            }
        }
        let last = users.len() - 1;
        let should_add = reps.len() < 5 || !crate::text::str_eq(
            reps[reps.len() - 1].1.as_str(),
            users[last].0.as_str(),
        );
        if should_add {
            let ghost pre = rep_views(reps@);
            reps.push(("Lowest followers".to_owned(), users[last].0.clone(), users[last].1));
            proof {
                assert(rep_views(reps@) =~= pre.push(
                    ("Lowest followers"@, rows.last().0, rows.last().1),
                ));
            }
        }
        Some(reps)
    }
}

} // verus!
