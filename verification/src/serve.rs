//! The checks that decide how a path under the root is answered, one question
//! to the file system at a time: for static content, and for the listing API,
//! which only lists directories.
use vstd::prelude::*;

verus! {

/// Where the answer to a static request stands: a question to ask of the
/// path, or the answer.
#[derive(Clone, Copy, Debug, PartialEq, Eq, Structural)]
pub enum StaticStep {
    /// Ask whether the path exists.
    CheckExists,
    /// Ask whether the path, made canonical, lies under the root.
    CheckInsideRoot,
    /// Ask whether the canonical path is a directory.
    CheckDirectory,
    /// Ask whether the directory holds an `index.html` that is a file.
    CheckIndex,
    /// Ask whether the canonical path is a plain file.
    CheckFile,
    /// Answer `403 Forbidden`.
    Forbidden,
    /// Answer `404 Not Found`.
    NotFound,
    /// Send the directory's `index.html`.
    ServeIndex,
    /// Send the directory's listing.
    Listing,
    /// Send the file.
    ServeFile,
}

/// Whether a step is an answer rather than a question.
pub open spec fn is_answer(s: StaticStep) -> bool {
    !(s is CheckExists || s is CheckInsideRoot || s is CheckDirectory || s is CheckIndex
        || s is CheckFile)
}

/// The first step: a target that names no path under the root is forbidden;
/// otherwise ask whether its path exists.
pub fn static_start(resolved: bool) -> (r: StaticStep)
    ensures
        r == (if resolved {
            StaticStep::CheckExists
        } else {
            StaticStep::Forbidden
        }),
{
    if resolved {
        StaticStep::CheckExists
    } else {
        StaticStep::Forbidden
    }
}

/// The step after a question and its answer; `listing_only` for the listing
/// API.
pub open spec fn static_next_spec(step: StaticStep, yes: bool, listing_only: bool) -> StaticStep {
    match step {
        StaticStep::CheckExists => if yes {
            StaticStep::CheckInsideRoot
        } else {
            StaticStep::NotFound
        },
        StaticStep::CheckInsideRoot => if yes {
            StaticStep::CheckDirectory
        } else {
            StaticStep::Forbidden
        },
        StaticStep::CheckDirectory => if yes {
            if listing_only {
                StaticStep::Listing
            } else {
                StaticStep::CheckIndex
            }
        } else {
            if listing_only {
                StaticStep::NotFound
            } else {
                StaticStep::CheckFile
            }
        },
        StaticStep::CheckIndex => if yes {
            StaticStep::ServeIndex
        } else {
            StaticStep::Listing
        },
        StaticStep::CheckFile => if yes {
            StaticStep::ServeFile
        } else {
            StaticStep::NotFound
        },
        _ => step,
    }
}

/// The step after the question `step` is answered `yes` or not: a missing
/// path is not found; a path outside the root is forbidden; a directory is
/// answered by its `index.html` file or its listing (the listing API only
/// lists, and finds nothing else); a plain file is sent; anything else is not
/// found. An answer stays as it is.
pub fn static_next(step: StaticStep, yes: bool, listing_only: bool) -> (r: StaticStep)
    ensures
        r == static_next_spec(step, yes, listing_only),
{
    match step {
        StaticStep::CheckExists => if yes {
            StaticStep::CheckInsideRoot
        } else {
            StaticStep::NotFound
        },
        StaticStep::CheckInsideRoot => if yes {
            StaticStep::CheckDirectory
        } else {
            StaticStep::Forbidden
        },
        StaticStep::CheckDirectory => if yes {
            if listing_only {
                StaticStep::Listing
            } else {
                StaticStep::CheckIndex
            }
        } else {
            if listing_only {
                StaticStep::NotFound
            } else {
                StaticStep::CheckFile
            }
        },
        StaticStep::CheckIndex => if yes {
            StaticStep::ServeIndex
        } else {
            StaticStep::Listing
        },
        StaticStep::CheckFile => if yes {
            StaticStep::ServeFile
        } else {
            StaticStep::NotFound
        },
        _ => step,
    }
}

/// The step reached from `step` by the answers `yes`, in order.
pub open spec fn static_run(step: StaticStep, yes: Seq<bool>, listing_only: bool) -> StaticStep
    decreases yes.len(),
{
    if yes.len() == 0 {
        step
    } else {
        static_run(static_next_spec(step, yes[0], listing_only), yes.drop_first(), listing_only)
    }
}

proof fn lemma_answer_stays(step: StaticStep, yes: Seq<bool>, listing_only: bool)
    requires
        is_answer(step),
    ensures
        static_run(step, yes, listing_only) == step,
    decreases yes.len(),
{
    if yes.len() > 0 {
        lemma_answer_stays(step, yes.drop_first(), listing_only);
    }
}

proof fn lemma_run_step(step: StaticStep, yes: Seq<bool>, listing_only: bool)
    requires
        yes.len() > 0,
    ensures
        static_run(step, yes, listing_only) == static_run(
            static_next_spec(step, yes[0], listing_only),
            yes.drop_first(),
            listing_only,
        ),
{
}

/// Content or a listing is sent only for a path that exists and lies under
/// the root: whatever the later answers, a run from the first question that
/// ends in sending something was told yes to both of those questions; and
/// four answers always reach an answer.
pub proof fn law_served_only_inside_root(yes: Seq<bool>, listing_only: bool)
    ensures
        ({
            let end = static_run(StaticStep::CheckExists, yes, listing_only);
            (end is ServeFile || end is ServeIndex || end is Listing) ==> yes.len() >= 3 && yes[0]
                && yes[1]
        }),
        yes.len() >= 4 ==> is_answer(static_run(StaticStep::CheckExists, yes, listing_only)),
{
    let s0 = StaticStep::CheckExists;
    if yes.len() == 0 {
        assert(static_run(s0, yes, listing_only) == s0);
    } else {
        lemma_run_step(s0, yes, listing_only);
        let s1 = static_next_spec(s0, yes[0], listing_only);
        let y1 = yes.drop_first();
        if !yes[0] {
            lemma_answer_stays(s1, y1, listing_only);
        } else if y1.len() == 0 {
            assert(static_run(s1, y1, listing_only) == s1);
        } else {
            lemma_run_step(s1, y1, listing_only);
            let s2 = static_next_spec(s1, y1[0], listing_only);
            let y2 = y1.drop_first();
            assert(y1[0] == yes[1]);
            if !y1[0] {
                lemma_answer_stays(s2, y2, listing_only);
            } else if y2.len() == 0 {
                assert(static_run(s2, y2, listing_only) == s2);
            } else {
                lemma_run_step(s2, y2, listing_only);
                let s3 = static_next_spec(s2, y2[0], listing_only);
                let y3 = y2.drop_first();
                if is_answer(s3) {
                    lemma_answer_stays(s3, y3, listing_only);
                } else if y3.len() == 0 {
                    assert(static_run(s3, y3, listing_only) == s3);
                } else {
                    lemma_run_step(s3, y3, listing_only);
                    let s4 = static_next_spec(s3, y3[0], listing_only);
                    assert(is_answer(s4));
                    lemma_answer_stays(s4, y3.drop_first(), listing_only);
                }
            }
        }
    }
}

} // verus!
