//! The walk loop: consume the traversal's outcomes, filter paths, and keep
//! the error ledgers.
//!
//! The traversal itself (parallel or sequential) belongs to the caller; this
//! module decides, outcome by outcome, what is emitted, what is skipped with
//! a reason, and when a strict run stops.

use vstd::prelude::*;

use crate::paths::{opt_str_view, should_include_in_walk, should_include_spec};

verus! {

/// One result from a directory walk: a path to consider, or an error with
/// an optional path.
pub enum WalkOutcome {
    Found(String),
    Failed { msg: String, path: Option<String> },
}

/// What a finished (or stopped) walk yields.
pub ghost struct WalkPlanV {
    pub included: Seq<Seq<char>>,
    pub skipped: Seq<(Seq<char>, Seq<char>)>,
    pub first_error: Option<Seq<char>>,
}

/// The ledger line for an error that carries no path: a synthetic entry
/// naming the last path seen, so timeouts and pathless errors are counted.
pub open spec fn no_path_message(last: Option<Seq<char>>) -> Seq<char> {
    "<no-path, last was "@ + (match last {
        Some(p) => p,
        None => "<none>"@,
    }) + ">"@
}

/// What the walk loop does with a sequence of outcomes, given the filter
/// context, the strict flag, whether the last seen path is tracked for
/// pathless errors, and the path last seen so far: paths passing the filter
/// are emitted in order; errors are recorded in the skipped ledger with a
/// reason (or, in strict mode, stop the walk at once with a first error).
pub open spec fn walk_plan_spec(
    outcomes: Seq<WalkOutcome>,
    root: Seq<char>,
    db: Option<Seq<char>>,
    temp: Option<Seq<char>>,
    excl: Seq<Seq<char>>,
    strict: bool,
    track_last_path: bool,
    last: Option<Seq<char>>,
) -> WalkPlanV
    decreases outcomes.len(),
{
    if outcomes.len() == 0 {
        WalkPlanV { included: Seq::empty(), skipped: Seq::empty(), first_error: None }
    } else {
        match outcomes[0] {
            WalkOutcome::Found(p) => {
                let last2 = if track_last_path {
                    Some(p@)
                } else {
                    last
                };
                let rest = walk_plan_spec(
                    outcomes.skip(1),
                    root,
                    db,
                    temp,
                    excl,
                    strict,
                    track_last_path,
                    last2,
                );
                if should_include_spec(p@, root, db, temp, excl) {
                    WalkPlanV {
                        included: seq![p@] + rest.included,
                        skipped: rest.skipped,
                        first_error: rest.first_error,
                    }
                } else {
                    rest
                }
            },
            WalkOutcome::Failed { msg, path } => {
                if strict {
                    WalkPlanV {
                        included: Seq::empty(),
                        skipped: Seq::empty(),
                        first_error: Some(msg@),
                    }
                } else {
                    let skip_path = match path {
                        Some(sp) => sp@,
                        None => no_path_message(last),
                    };
                    let rest = walk_plan_spec(
                        outcomes.skip(1),
                        root,
                        db,
                        temp,
                        excl,
                        strict,
                        track_last_path,
                        last,
                    );
                    WalkPlanV {
                        included: rest.included,
                        skipped: seq![(skip_path, msg@)] + rest.skipped,
                        first_error: rest.first_error,
                    }
                }
            },
        }
    }
}

/// What the walk does with one traversal outcome. The caller performs the
/// action: send an emitted path on, append a recorded line to the skipped
/// ledger, or stop the walk on the strict first error.
pub enum WalkStep {
    Emit(String),
    Skip,
    Record(String, String),
    Stop(String),
}

/// Decide one walk outcome: the per-outcome step of [`run_walk_loop`], for a
/// caller that drives a streaming traversal itself. Tracks the last seen
/// path for pathless error lines exactly as the loop does: a found path is
/// remembered (when tracking is on) before the filter runs, and an error
/// without a path is recorded under a synthetic line naming the last path
/// seen.
pub fn walk_step(
    outcome: WalkOutcome,
    root: &str,
    db_canonical: &Option<String>,
    temp_canonical: &Option<String>,
    exclude: &Vec<String>,
    strict: bool,
    track_last_path: bool,
    last_path: &mut Option<String>,
) -> (r: WalkStep)
    ensures
        match outcome {
            WalkOutcome::Found(p) => {
                &&& opt_str_view(*final(last_path)) == (if track_last_path {
                    Some(p@)
                } else {
                    opt_str_view(*old(last_path))
                })
                &&& if should_include_spec(
                    p@,
                    root@,
                    opt_str_view(*db_canonical),
                    opt_str_view(*temp_canonical),
                    exclude.deep_view(),
                ) {
                    r matches WalkStep::Emit(q) && q@ == p@
                } else {
                    r is Skip
                }
            },
            WalkOutcome::Failed { msg, path } => {
                &&& *final(last_path) == *old(last_path)
                &&& if strict {
                    r matches WalkStep::Stop(m) && m@ == msg@
                } else {
                    r matches WalkStep::Record(sp, m) && m@ == msg@ && sp@ == (match path {
                        Some(q) => q@,
                        None => no_path_message(opt_str_view(*old(last_path))),
                    })
                }
            },
        },
{
    match outcome {
        WalkOutcome::Found(p) => {
            if track_last_path {
                *last_path = Some(p.clone());
            }
            if should_include_in_walk(p.as_str(), root, db_canonical, temp_canonical, exclude) {
                WalkStep::Emit(p)
            } else {
                WalkStep::Skip
            }
        },
        WalkOutcome::Failed { msg, path } => {
            if strict {
                return WalkStep::Stop(msg);
            }
            let sp: String = match path {
                Some(q) => q,
                None => {
                    let mut m = String::from_str("<no-path, last was ");
                    match &*last_path {
                        Some(lp) => m.append(lp.as_str()),
                        None => m.append("<none>"),
                    }
                    m.append(">");
                    m
                },
            };
            WalkStep::Record(sp, msg)
        },
    }
}

/// What a finished (or stopped) walk yields: the paths to emit in order,
/// the skipped ledger, the strict first error if one stopped the walk, and
/// the count of emitted paths.
pub struct WalkPlan {
    pub included: Vec<String>,
    pub skipped: Vec<(String, String)>,
    pub first_error: Option<String>,
    pub count: usize,
}

/// The view of a skipped ledger.
pub open spec fn skipped_view(v: Seq<(String, String)>) -> Seq<(Seq<char>, Seq<char>)> {
    v.map_values(|p: (String, String)| (p.0@, p.1@))
}

/// Run the common walk loop over the traversal's outcomes: filter each
/// found path with the walk inclusion rule and emit it in order; in strict
/// mode stop at the first error and record it; otherwise push every error
/// onto the skipped ledger (with a synthetic line naming the last seen path
/// when the error has none, and the last path is tracked).
pub fn run_walk_loop(
    outcomes: &Vec<WalkOutcome>,
    root: &str,
    db_canonical: &Option<String>,
    temp_canonical: &Option<String>,
    exclude: &Vec<String>,
    strict: bool,
    track_last_path: bool,
) -> (r: WalkPlan)
    ensures
        ({
            let plan = walk_plan_spec(
                outcomes@,
                root@,
                opt_str_view(*db_canonical),
                opt_str_view(*temp_canonical),
                exclude.deep_view(),
                strict,
                track_last_path,
                None,
            );
            &&& r.included.deep_view() == plan.included
            &&& skipped_view(r.skipped@) == plan.skipped
            &&& opt_str_view(r.first_error) == plan.first_error
            &&& r.count == plan.included.len()
        }),
{
    let ghost rootv = root@;
    let ghost dbv = opt_str_view(*db_canonical);
    let ghost tempv = opt_str_view(*temp_canonical);
    let ghost exclv = exclude.deep_view();
    let ghost full = walk_plan_spec(
        outcomes@,
        rootv,
        dbv,
        tempv,
        exclv,
        strict,
        track_last_path,
        None,
    );
    let mut included: Vec<String> = Vec::new();
    let mut skipped: Vec<(String, String)> = Vec::new();
    let mut last_path: Option<String> = None;
    let mut count: usize = 0;
    let mut i: usize = 0;
    assert(included.deep_view() =~= Seq::<Seq<char>>::empty());
    assert(skipped_view(skipped@) =~= Seq::<(Seq<char>, Seq<char>)>::empty());
    assert(outcomes@.skip(0) =~= outcomes@);
    while i < outcomes.len()
        invariant
            i <= outcomes@.len(),
            count == included.deep_view().len(),
            included.deep_view().len() <= i,
            rootv == root@,
            dbv == opt_str_view(*db_canonical),
            tempv == opt_str_view(*temp_canonical),
            exclv == exclude.deep_view(),
            full == walk_plan_spec(
                outcomes@,
                rootv,
                dbv,
                tempv,
                exclv,
                strict,
                track_last_path,
                None,
            ),
            ({
                let tail = walk_plan_spec(
                    outcomes@.skip(i as int),
                    rootv,
                    dbv,
                    tempv,
                    exclv,
                    strict,
                    track_last_path,
                    opt_str_view(last_path),
                );
                &&& full.included == included.deep_view() + tail.included
                &&& full.skipped == skipped_view(skipped@) + tail.skipped
                &&& full.first_error == tail.first_error
            }),
        decreases outcomes@.len() - i,
    {
        let ghost tail_pre = walk_plan_spec(
            outcomes@.skip(i as int),
            rootv,
            dbv,
            tempv,
            exclv,
            strict,
            track_last_path,
            opt_str_view(last_path),
        );
        proof {
            assert(outcomes@.skip(i as int)[0] == outcomes@[i as int]);
            assert(outcomes@.skip(i as int).skip(1) =~= outcomes@.skip(i as int + 1));
        }
        match &outcomes[i] {
            WalkOutcome::Found(p) => {
                if track_last_path {
                    last_path = Some(p.clone());
                }
                proof {
                    let rest = walk_plan_spec(
                        outcomes@.skip(i as int + 1),
                        rootv,
                        dbv,
                        tempv,
                        exclv,
                        strict,
                        track_last_path,
                        opt_str_view(last_path),
                    );
                    if should_include_spec(p@, rootv, dbv, tempv, exclv) {
                        assert(tail_pre.included == seq![p@] + rest.included);
                        assert(tail_pre.skipped == rest.skipped);
                        assert(tail_pre.first_error == rest.first_error);
                    } else {
                        assert(tail_pre == rest);
                    }
                }
                let ghost inc0 = included.deep_view();
                if should_include_in_walk(p.as_str(), root, db_canonical, temp_canonical, exclude) {
                    included.push(p.clone());
                    count = count + 1;
                    proof {
                        assert(included.deep_view() =~= inc0.push(p@));
                        assert(inc0 + (seq![p@] + walk_plan_spec(
                            outcomes@.skip(i as int + 1),
                            rootv,
                            dbv,
                            tempv,
                            exclv,
                            strict,
                            track_last_path,
                            opt_str_view(last_path),
                        ).included) =~= inc0.push(p@) + walk_plan_spec(
                            outcomes@.skip(i as int + 1),
                            rootv,
                            dbv,
                            tempv,
                            exclv,
                            strict,
                            track_last_path,
                            opt_str_view(last_path),
                        ).included);
                    }
                }
            },
            WalkOutcome::Failed { msg, path } => {
                if strict {
                    proof {
                        assert(tail_pre.first_error == Some(msg@));
                        assert(tail_pre.included == Seq::<Seq<char>>::empty());
                        assert(tail_pre.skipped == Seq::<(Seq<char>, Seq<char>)>::empty());
                        assert(full.included =~= included.deep_view());
                        assert(full.skipped =~= skipped_view(skipped@));
                    }
                    return WalkPlan {
                        included,
                        skipped,
                        first_error: Some(msg.clone()),
                        count,
                    };
                }
                let to_push: String = match path {
                    Some(sp) => sp.clone(),
                    None => {
                        let mut m = String::from_str("<no-path, last was ");
                        match &last_path {
                            Some(lp) => m.append(lp.as_str()),
                            None => m.append("<none>"),
                        }
                        m.append(">");
                        m
                    },
                };
                let ghost sk0 = skipped_view(skipped@);
                let ghost pushed = to_push@;
                skipped.push((to_push, msg.clone()));
                proof {
                    let rest = walk_plan_spec(
                        outcomes@.skip(i as int + 1),
                        rootv,
                        dbv,
                        tempv,
                        exclv,
                        strict,
                        track_last_path,
                        opt_str_view(last_path),
                    );
                    assert(tail_pre.included == rest.included);
                    assert(tail_pre.first_error == rest.first_error);
                    assert(tail_pre.skipped == seq![(pushed, msg@)] + rest.skipped);
                    assert(skipped_view(skipped@) =~= sk0.push((pushed, msg@)));
                    assert(sk0 + tail_pre.skipped =~= skipped_view(skipped@) + rest.skipped);
                }
            },
        }
        proof {
            let tail_new = walk_plan_spec(
                outcomes@.skip(i as int + 1),
                rootv,
                dbv,
                tempv,
                exclv,
                strict,
                track_last_path,
                opt_str_view(last_path),
            );
            assert(full.included == included.deep_view() + tail_new.included);
            assert(full.skipped == skipped_view(skipped@) + tail_new.skipped);
            assert(full.first_error == tail_new.first_error);
        }
        i = i + 1;
    }
    assert(outcomes@.skip(outcomes@.len() as int) =~= Seq::<WalkOutcome>::empty());
    assert(full.included =~= included.deep_view());
    assert(full.skipped =~= skipped_view(skipped@));
    WalkPlan { included, skipped, first_error: None, count }
}

} // verus!
