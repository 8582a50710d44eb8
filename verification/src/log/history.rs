//! The listing of masked logs: the history file, then session logs newest
//! first.
use vstd::prelude::*;

use crate::sequences::bindings::{
    less_chars, lemma_less_asymmetric, lemma_less_irreflexive, lemma_less_total, seq_less,
};
use crate::text::{chars_of, has_suffix, ends_with};

verus! {

broadcast use vstd::string::group_string_axioms;

/// What a listed log is.
#[derive(Debug, Copy, Clone, PartialEq, Eq, Structural)]
pub enum LogListingKind {
    History,
    Session,
}

impl LogListingKind {
    /// The kind as `logs list` prints it.
    pub fn as_str(self) -> (r: &'static str)
        ensures
            r@ == match self {
                LogListingKind::History => "history"@,
                LogListingKind::Session => "session"@,
            },
    {
        match self {
            LogListingKind::History => "history",
            LogListingKind::Session => "session",
        }
    }
}

/// One listed log file.
#[derive(Debug, Clone, PartialEq, Eq)]
pub struct LogListing {
    pub kind: LogListingKind,
    pub path: String,
}

/// `seq_less` is transitive.
pub proof fn lemma_less_transitive(a: Seq<char>, b: Seq<char>, c: Seq<char>)
    requires
        seq_less(a, b),
        seq_less(b, c),
    ensures
        seq_less(a, c),
    decreases a.len(),
{
    if a.len() > 0 && b.len() > 0 && c.len() > 0 && a[0] == b[0] && b[0] == c[0] {
        lemma_less_transitive(a.drop_first(), b.drop_first(), c.drop_first());
    }
}

/// Whether the log at position `x` is listed before the one at `y`: a
/// later name (newer, by its timestamp), or the same name met earlier.
pub open spec fn listed_before(paths: Seq<Seq<char>>, x: usize, y: usize) -> bool {
    seq_less(paths[y as int], paths[x as int]) || (paths[x as int] == paths[y as int] && x < y)
}

/// Whether `order` lists every position of `paths` once, newest first.
pub open spec fn newest_first(paths: Seq<Seq<char>>, order: Seq<usize>) -> bool {
    &&& order.len() == paths.len()
    &&& forall|k: int| 0 <= k < order.len() ==> order[k] < paths.len()
    &&& forall|a: int, b: int|
        #![trigger order[a], order[b]]
        0 <= a < b < order.len() ==> listed_before(paths, order[a], order[b])
}

pub open spec fn views(v: Seq<String>) -> Seq<Seq<char>> {
    v.map_values(|s: String| s@)
}

/// The positions of the paths, newest first.
pub fn newest_first_order(paths: &Vec<String>) -> (order: Vec<usize>)
    ensures
        newest_first(views(paths@), order@),
{
    let ghost p = views(paths@);
    let n = paths.len();
    let mut order: Vec<usize> = Vec::new();
    let mut i: usize = 0;
    while i < n
        invariant
            i <= n,
            n == paths@.len(),
            p == views(paths@),
            order.len() == i,
            forall|k: int| 0 <= k < order.len() ==> order@[k] < i,
            forall|a: int, b: int|
                #![trigger order@[a], order@[b]]
                0 <= a < b < order.len() ==> listed_before(p, order@[a], order@[b]),
        decreases n - i,
    {
        let current = chars_of(paths[i].as_str());
        let mut pos: usize = 0;
        while pos < order.len() && !less_chars(&chars_of(paths[order[pos]].as_str()), &current)
            invariant
                pos <= order.len(),
                order.len() == i,
                i < n,
                n == paths@.len(),
                p == views(paths@),
                current@ == p[i as int],
                forall|k: int| 0 <= k < order.len() ==> order@[k] < i,
                forall|k: int| 0 <= k < pos ==> !seq_less(#[trigger] p[order@[k] as int], p[i as int]),
            decreases order.len() - pos,
        {
            pos += 1;
        }
        proof {
            assert forall|k: int| pos <= k < order.len() implies seq_less(
                #[trigger] p[order@[k] as int],
                p[i as int],
            ) by {
                let first = p[order@[pos as int] as int];
                assert(seq_less(first, p[i as int]));
                if k > pos {
                    assert(listed_before(p, order@[pos as int], order@[k]));
                    if seq_less(p[order@[k] as int], first) {
                        lemma_less_transitive(p[order@[k] as int], first, p[i as int]);
                    }
                }
            }
        }
        let ghost before = order@;
        order.insert(pos, i);
        proof {
            assert forall|a: int, b: int|
                #![trigger order@[a], order@[b]]
                0 <= a < b < order.len() implies listed_before(p, order@[a], order@[b]) by {
                if b < pos {
                    assert(order@[a] == before[a] && order@[b] == before[b]);
                } else if b == pos {
                    assert(order@[a] == before[a]);
                    let x = p[order@[a] as int];
                    let y = p[i as int];
                    assert(!seq_less(x, y));
                    if x != y {
                        lemma_less_total(x, y);
                    }
                } else if a < pos {
                    assert(order@[a] == before[a] && order@[b] == before[b - 1]);
                } else if a == pos {
                    assert(order@[b] == before[b - 1]);
                } else {
                    assert(order@[a] == before[a - 1] && order@[b] == before[b - 1]);
                }
            }
        }
        i += 1;
    }
    order
}

/// Whether a path names a session log.
pub open spec fn is_session_log(path: Seq<char>) -> bool {
    has_suffix(path, ".session.log"@) && path.len() >= 12
}

/// The session logs among `paths`, in their order.
pub open spec fn session_logs(paths: Seq<String>) -> Seq<String>
    decreases paths.len(),
{
    if paths.len() == 0 {
        Seq::empty()
    } else if is_session_log(paths.last()@) {
        session_logs(paths.drop_last()).push(paths.last())
    } else {
        session_logs(paths.drop_last())
    }
}

/// The listing: the history file when it exists, then the session logs
/// among `files` (the regular files of the session directory), newest first.
pub fn log_listings(history: Option<String>, files: Vec<String>) -> (r: Vec<LogListing>)
    ensures
        ({
            let start: int = if history is Some {
                1
            } else {
                0
            };
            let logs = session_logs(files@);
            &&& r.len() == start + logs.len()
            &&& history matches Some(h) ==> r@[0] == (LogListing { kind: LogListingKind::History, path: h })
            &&& exists|order: Seq<usize>|
                newest_first(views(logs), order) && forall|k: int|
                    0 <= k < logs.len() ==> #[trigger] r@[start + k] == (LogListing {
                        kind: LogListingKind::Session,
                        path: logs[order[k] as int],
                    })
        }),
{
    let mut logs: Vec<String> = Vec::new();
    let mut i: usize = 0;
    assert(files@.take(0) =~= Seq::<String>::empty());
    while i < files.len()
        invariant
            i <= files.len(),
            logs@ == session_logs(files@.take(i as int)),
        decreases files.len() - i,
    {
        assert(files@.take(i + 1).drop_last() =~= files@.take(i as int));
        let v = chars_of(files[i].as_str());
        if v.len() >= 12 && ends_with(&v, ".session.log") {
            logs.push(files[i].clone());
        }
        i += 1;
    }
    assert(files@.take(i as int) =~= files@);
    let order = newest_first_order(&logs);
    let mut r: Vec<LogListing> = Vec::new();
    let ghost history_view = history;
    match history {
        Some(h) => r.push(LogListing { kind: LogListingKind::History, path: h }),
        None => {},
    }
    let ghost start: int = r.len() as int;
    let ghost head = r@;
    let mut k: usize = 0;
    while k < order.len()
        invariant
            k <= order.len(),
            0 <= start <= 1,
            head.len() == start,
            order.len() == logs.len(),
            forall|j: int| 0 <= j < order.len() ==> order@[j] < logs.len(),
            r.len() == start + k,
            forall|j: int| 0 <= j < start ==> r@[j] == head[j],
            forall|j: int|
                0 <= j < k ==> #[trigger] r@[start + j] == (LogListing {
                    kind: LogListingKind::Session,
                    path: logs@[order@[j] as int],
                }),
        decreases order.len() - k,
    {
        let item = LogListing { kind: LogListingKind::Session, path: logs[order[k]].clone() };
        r.push(item);
        k += 1;
    }
    proof {
        assert(start == if history_view is Some {
            1int
        } else {
            0int
        });
        assert forall|j: int| 0 <= j < logs@.len() implies #[trigger] r@[start + j] == (LogListing {
            kind: LogListingKind::Session,
            path: session_logs(files@)[order@[j] as int],
        }) by {}
        assert(newest_first(views(session_logs(files@)), order@));
        if history_view is Some {
            assert(r@[0] == head[0]);
        }
    }
    r
}

} // verus!
