//! File locations: the state and configuration directories resolved from
//! environment values, `~` expansion, and the names of log and export
//! files.
use vstd::prelude::*;

use crate::error::AtctlError;
use crate::log::history::lemma_less_transitive;
use crate::sequences::bindings::{less_chars, lemma_less_total, seq_less};
use crate::text::{chars_of, is_alnum, lower, push_all, push_str, slice, string_of};

verus! {

broadcast use vstd::string::group_string_axioms;

/// `Path::join` on Unix: an absolute `rel` replaces `base`; otherwise a
/// `/` separates them unless `base` is empty or already ends with one.
pub open spec fn path_join(base: Seq<char>, rel: Seq<char>) -> Seq<char> {
    if rel.len() > 0 && rel[0] == '/' {
        rel
    } else if base.len() == 0 || base.last() == '/' {
        base + rel
    } else {
        base + seq!['/'] + rel
    }
}

/// Joins two paths as `Path::join` does on Unix.
pub fn join_path(base: &str, rel: &str) -> (r: String)
    ensures
        r@ == path_join(base@, rel@),
{
    let b = chars_of(base);
    let rv = chars_of(rel);
    if rv.len() > 0 && rv[0] == '/' {
        return rel.to_owned();
    }
    let mut v = b;
    if v.len() > 0 && v[v.len() - 1] != '/' {
        v.push('/');
    }
    push_all(&mut v, &rv);
    string_of(&v)
}

/// Whether a path is absolute on Unix.
pub open spec fn is_absolute(p: Seq<char>) -> bool {
    p.len() > 0 && p[0] == '/'
}

fn is_absolute_exec(p: &str) -> (b: bool)
    ensures
        b == is_absolute(p@),
{
    let v = chars_of(p);
    v.len() > 0 && v[0] == '/'
}

/// The state home: an absolute, non-empty `XDG_STATE_HOME`, else
/// `.local/state` under an absolute, non-empty `HOME`.
pub open spec fn state_home(xdg_state_home: Option<Seq<char>>, home: Option<Seq<char>>) -> Option<
    Seq<char>,
> {
    if xdg_state_home is Some && is_absolute(xdg_state_home->0) {
        xdg_state_home
    } else if home is Some && is_absolute(home->0) {
        Some(path_join(home->0, ".local/state"@))
    } else {
        None
    }
}

pub open spec fn opt_view(o: Option<String>) -> Option<Seq<char>> {
    match o {
        Some(s) => Some(s@),
        None => None,
    }
}

/// The directory of atctl's logs and history: `atctl` under the state home.
pub fn resolve_state_dir(xdg_state_home: Option<String>, home: Option<String>) -> (r: Result<
    String,
    AtctlError,
>)
    ensures
        match state_home(opt_view(xdg_state_home), opt_view(home)) {
            Some(h) => r matches Ok(p) && p@ == path_join(h, "atctl"@),
            None => r == Err::<String, AtctlError>(AtctlError::StateDirectoryUnavailable),
        },
{
    if let Some(x) = &xdg_state_home {
        if is_absolute_exec(x.as_str()) {
            return Ok(join_path(x.as_str(), "atctl"));
        }
    }
    if let Some(h) = &home {
        if is_absolute_exec(h.as_str()) {
            let state = join_path(h.as_str(), ".local/state");
            return Ok(join_path(state.as_str(), "atctl"));
        }
    }
    Err(AtctlError::StateDirectoryUnavailable)
}

/// The configuration home: `XDG_CONFIG_HOME` when set, else `.config`
/// under `HOME` (or under `~` without one).
pub open spec fn config_home(xdg_config_home: Option<Seq<char>>, home: Option<Seq<char>>) -> Seq<
    char,
> {
    match xdg_config_home {
        Some(x) => x,
        None => path_join(
            match home {
                Some(h) => h,
                None => "~"@,
            },
            ".config"@,
        ),
    }
}

/// The configuration file: `atctl/config.toml` under the configuration
/// home.
pub fn default_config_path(xdg_config_home: Option<String>, home: Option<String>) -> (r: String)
    ensures
        r@ == path_join(config_home(opt_view(xdg_config_home), opt_view(home)), "atctl/config.toml"@),
{
    let base = match xdg_config_home {
        Some(x) => x,
        None => {
            let h = match home {
                Some(h) => h,
                None => "~".to_owned(),
            };
            join_path(h.as_str(), ".config")
        },
    };
    join_path(base.as_str(), "atctl/config.toml")
}

/// The configuration file as shown to the user: the full path when
/// `XDG_CONFIG_HOME` is set, else `~/.config/atctl/config.toml`.
pub fn default_config_path_display(xdg_config_home: Option<String>, home: Option<String>) -> (r:
    String)
    ensures
        xdg_config_home is Some ==> r@ == path_join(
            config_home(opt_view(xdg_config_home), opt_view(home)),
            "atctl/config.toml"@,
        ),
        xdg_config_home is None ==> r@ == "~/.config/atctl/config.toml"@,
{
    if xdg_config_home.is_some() {
        default_config_path(xdg_config_home, home)
    } else {
        "~/.config/atctl/config.toml".to_owned()
    }
}

/// The state directory of the configuration: `atctl` under
/// `XDG_STATE_HOME` when it is a non-empty absolute path, else under
/// `.local/state` in `HOME` (or `~`).
pub fn default_state_dir(xdg_state_home: Option<String>, home: Option<String>) -> (r: String)
    ensures
        r@ == path_join(
            match opt_view(xdg_state_home) {
                Some(x) => if is_absolute(x) {
                    x
                } else {
                    path_join(
                        match opt_view(home) {
                            Some(h) => h,
                            None => "~"@,
                        },
                        ".local/state"@,
                    )
                },
                None => path_join(
                    match opt_view(home) {
                        Some(h) => h,
                        None => "~"@,
                    },
                    ".local/state"@,
                ),
            },
            "atctl"@,
        ),
{
    let use_xdg = match &xdg_state_home {
        Some(x) => is_absolute_exec(x.as_str()),
        None => false,
    };
    let base = if use_xdg {
        match xdg_state_home {
            Some(x) => x,
            None => String::new(),
        }
    } else {
        let h = match home {
            Some(h) => h,
            None => "~".to_owned(),
        };
        join_path(h.as_str(), ".local/state")
    };
    join_path(base.as_str(), "atctl")
}

/// `~` and `~/rest` expanded against `HOME` (left as `~` without one);
/// anything else unchanged.
pub open spec fn expanded(value: Seq<char>, home: Option<Seq<char>>) -> Seq<char> {
    let h = match home {
        Some(h) => h,
        None => "~"@,
    };
    if value == "~"@ {
        h
    } else if value.len() >= 2 && value[0] == '~' && value[1] == '/' {
        path_join(h, value.skip(2))
    } else {
        value
    }
}

pub fn expand_tilde_path(value: &str, home: Option<String>) -> (r: String)
    ensures
        r@ == expanded(value@, opt_view(home)),
{
    let v = chars_of(value);
    let h = match home {
        Some(h) => h,
        None => "~".to_owned(),
    };
    if v.len() == 1 && v[0] == '~' {
        proof {
            reveal_strlit("~");
        }
        assert(v@ =~= "~"@);
        return h;
    }
    if v.len() >= 2 && v[0] == '~' && v[1] == '/' {
        proof {
            reveal_strlit("~");
        }
        let rest = slice(&v, 2, v.len());
        assert(rest@ =~= value@.skip(2));
        return join_path(h.as_str(), string_of(&rest).as_str());
    }
    proof {
        reveal_strlit("~");
        if value@ == "~"@ {
            assert(v@.len() == 1);
        }
    }
    value.to_owned()
}

/// Where the masked logs go: the state directory and its session log
/// directory.
#[derive(Debug, Clone, PartialEq, Eq)]
pub struct LoggingPaths {
    pub state_dir: String,
    pub session_dir: String,
}

/// The logging paths under the resolved state directory.
pub fn logging_paths(xdg_state_home: Option<String>, home: Option<String>) -> (r: Result<
    LoggingPaths,
    AtctlError,
>)
    ensures
        match state_home(opt_view(xdg_state_home), opt_view(home)) {
            Some(h) => r matches Ok(p) && p.state_dir@ == path_join(h, "atctl"@) && p.session_dir@
                == path_join(path_join(h, "atctl"@), "logs"@),
            None => r == Err::<LoggingPaths, AtctlError>(AtctlError::StateDirectoryUnavailable),
        },
{
    let state_dir = resolve_state_dir(xdg_state_home, home)?;
    let session_dir = join_path(state_dir.as_str(), "logs");
    Ok(LoggingPaths { state_dir, session_dir })
}

/// The logging paths of a run, none when logging is off; the state
/// directory is only resolved when logging is on.
pub fn normal_logging_paths(
    no_log: bool,
    xdg_state_home: Option<String>,
    home: Option<String>,
) -> (r: Result<Option<LoggingPaths>, AtctlError>)
    ensures
        no_log ==> r == Ok::<Option<LoggingPaths>, AtctlError>(None),
        !no_log ==> match state_home(opt_view(xdg_state_home), opt_view(home)) {
            Some(h) => r matches Ok(Some(p)) && p.state_dir@ == path_join(h, "atctl"@)
                && p.session_dir@ == path_join(path_join(h, "atctl"@), "logs"@),
            None => r == Err::<Option<LoggingPaths>, AtctlError>(
                AtctlError::StateDirectoryUnavailable,
            ),
        },
{
    if no_log {
        return Ok(None);
    }
    let paths = logging_paths(xdg_state_home, home)?;
    Ok(Some(paths))
}

/// The command history file in a state directory.
pub fn history_path(state_dir: &str) -> (r: String)
    ensures
        r@ == path_join(state_dir@, "history.jsonl"@),
{
    join_path(state_dir, "history.jsonl")
}

/// The session log directory in a state directory.
pub fn session_log_dir(state_dir: &str) -> (r: String)
    ensures
        r@ == path_join(state_dir@, "logs"@),
{
    join_path(state_dir, "logs")
}

// ---------------------------------------------------------------------
// Response export names
// ---------------------------------------------------------------------
/// `char::to_lowercase`, as the characters it yields.
pub uninterp spec fn unicode_lowercase(c: char) -> Seq<char>;

/// `char::to_lowercase`: the lowercase mapping of `c`, one or more
/// characters; an ASCII character maps to its ASCII lowercase. How other
/// characters map is Unicode's table and is left unsaid beyond the name.
#[verifier::external_body]
fn lowercase_of(c: char) -> (r: Vec<char>)
    ensures
        r@ == unicode_lowercase(c),
        (c as u32) < 128 ==> r@ == seq![lower(c)],
{
    c.to_lowercase().collect()
}

/// The state of building a slug: what was built, whether a separator is
/// due before the next letter or digit, and whether it is long enough.
pub open spec fn slug_step(st: (Seq<char>, bool, bool), c: char) -> (Seq<char>, bool, bool) {
    if st.2 {
        st
    } else {
        let (slug, pending) = if is_alnum(c) {
            (
                if st.1 && st.0.len() > 0 {
                    st.0.push('-')
                } else {
                    st.0
                }.push(c),
                false,
            )
        } else if st.0.len() > 0 {
            (st.0, true)
        } else {
            (st.0, st.1)
        };
        (slug, pending, slug.len() >= 64)
    }
}

pub open spec fn slug_from(st: (Seq<char>, bool, bool), s: Seq<char>) -> (Seq<char>, bool, bool)
    decreases s.len(),
{
    if s.len() == 0 {
        st
    } else {
        slug_step(slug_from(st, s.drop_last()), s.last())
    }
}

/// The lowercase mappings of all characters, in order.
pub open spec fn lowered(s: Seq<char>) -> Seq<char>
    decreases s.len(),
{
    if s.len() == 0 {
        Seq::empty()
    } else {
        lowered(s.drop_last()) + unicode_lowercase(s.last())
    }
}

/// A label as a file-name slug: lowercased, letters and digits kept, each
/// run of other characters between them one `-`, cut once 64 characters
/// are reached, and `response` when nothing is left.
pub open spec fn label_slug(value: Seq<char>) -> Seq<char> {
    let s = slug_from((Seq::empty(), false, false), lowered(value)).0;
    if s.len() == 0 {
        "response"@
    } else {
        s
    }
}

/// Folding a concatenation folds its parts in turn.
pub proof fn lemma_slug_from_append(st: (Seq<char>, bool, bool), a: Seq<char>, b: Seq<char>)
    ensures
        slug_from(st, a + b) == slug_from(slug_from(st, a), b),
    decreases b.len(),
{
    if b.len() == 0 {
        assert(a + b =~= a);
    } else {
        assert((a + b).drop_last() =~= a + b.drop_last());
        lemma_slug_from_append(st, a, b.drop_last());
    }
}

/// A slug never ends with `-`, and holds only ASCII letters, digits and
/// `-`.
pub proof fn lemma_slug_shape(st: (Seq<char>, bool, bool), s: Seq<char>)
    requires
        st.0.len() == 0 || st.0.last() != '-',
    ensures
        slug_from(st, s).0.len() == 0 || slug_from(st, s).0.last() != '-',
    decreases s.len(),
{
    if s.len() > 0 {
        lemma_slug_shape(st, s.drop_last());
    }
}

fn slug_step_exec(slug: &mut Vec<char>, pending: &mut bool, done: &mut bool, c: char)
    ensures
        (final(slug)@, *final(pending), *final(done)) == slug_step(
            (old(slug)@, *old(pending), *old(done)),
            c,
        ),
{
    if *done {
        return;
    }
    if ('0' <= c && c <= '9') || ('a' <= c && c <= 'z') || ('A' <= c && c <= 'Z') {
        if *pending && slug.len() > 0 {
            slug.push('-');
        }
        slug.push(c);
        *pending = false;
    } else if slug.len() > 0 {
        *pending = true;
    }
    *done = slug.len() >= 64;
}

/// The slug of a response label, for export file names.
pub fn response_label_slug(value: &str) -> (r: String)
    ensures
        r@ == label_slug(value@),
        r@.len() > 0 && r@.last() != '-',
{
    let v = chars_of(value);
    let mut slug: Vec<char> = Vec::new();
    let mut pending = false;
    let mut done = false;
    let mut i: usize = 0;
    assert(v@.take(0) =~= Seq::<char>::empty());
    while i < v.len()
        invariant
            i <= v.len(),
            v@ == value@,
            (slug@, pending, done) == slug_from(
                (Seq::empty(), false, false),
                lowered(v@.take(i as int)),
            ),
        decreases v.len() - i,
    {
        let low = lowercase_of(v[i]);
        let ghost st0 = (slug@, pending, done);
        let mut k: usize = 0;
        assert(low@.take(0) =~= Seq::<char>::empty());
        while k < low.len()
            invariant
                k <= low.len(),
                (slug@, pending, done) == slug_from(st0, low@.take(k as int)),
            decreases low.len() - k,
        {
            slug_step_exec(&mut slug, &mut pending, &mut done, low[k]);
            assert(low@.take(k + 1).drop_last() =~= low@.take(k as int));
            k += 1;
        }
        proof {
            assert(low@.take(k as int) =~= low@);
            assert(v@.take(i + 1).drop_last() =~= v@.take(i as int));
            lemma_slug_from_append((Seq::empty(), false, false), lowered(v@.take(i as int)), low@);
        }
        i += 1;
    }
    assert(v@.take(i as int) =~= v@);
    proof {
        lemma_slug_shape((Seq::empty(), false, false), lowered(value@));
    }
    if slug.len() == 0 {
        proof {
            reveal_strlit("response");
        }
        "response".to_owned()
    } else {
        string_of(&slug)
    }
}

/// The file a response export goes to: the label's slug and the
/// timestamp, in `directory`.
pub fn response_export_path(directory: &str, response_label: &str, timestamp_file_stem: &str) -> (r:
    String)
    ensures
        r@ == path_join(
            directory@,
            label_slug(response_label@) + "-"@ + timestamp_file_stem@ + ".response.txt"@,
        ),
{
    let mut name = chars_of(response_label_slug(response_label).as_str());
    push_str(&mut name, "-");
    push_str(&mut name, timestamp_file_stem);
    push_str(&mut name, ".response.txt");
    join_path(directory, string_of(&name).as_str())
}

/// Whether the name at position `x` comes before the one at `y`: a
/// smaller name, or the same name met earlier.
pub open spec fn name_before(names: Seq<Seq<char>>, x: usize, y: usize) -> bool {
    seq_less(names[x as int], names[y as int]) || (names[x as int] == names[y as int] && x < y)
}

/// Whether `order` lists every position of `names` once, in name order.
pub open spec fn in_name_order(names: Seq<Seq<char>>, order: Seq<usize>) -> bool {
    &&& order.len() == names.len()
    &&& forall|k: int| 0 <= k < order.len() ==> order[k] < names.len()
    &&& forall|a: int, b: int|
        #![trigger order[a], order[b]]
        0 <= a < b < order.len() ==> name_before(names, order[a], order[b])
}

pub open spec fn path_views(v: Seq<String>) -> Seq<Seq<char>> {
    v.map_values(|s: String| s@)
}

/// The positions of the paths in name order: the order in which the
/// definition files of a directory are read.
pub fn name_order(paths: &Vec<String>) -> (order: Vec<usize>)
    ensures
        in_name_order(path_views(paths@), order@),
{
    let ghost p = path_views(paths@);
    let n = paths.len();
    let mut order: Vec<usize> = Vec::new();
    let mut i: usize = 0;
    while i < n
        invariant
            i <= n,
            n == paths@.len(),
            p == path_views(paths@),
            order.len() == i,
            forall|k: int| 0 <= k < order.len() ==> order@[k] < i,
            forall|a: int, b: int|
                #![trigger order@[a], order@[b]]
                0 <= a < b < order.len() ==> name_before(p, order@[a], order@[b]),
        decreases n - i,
    {
        let current = chars_of(paths[i].as_str());
        let mut pos: usize = 0;
        while pos < order.len() && !less_chars(&current, &chars_of(paths[order[pos]].as_str()))
            invariant
                pos <= order.len(),
                order.len() == i,
                i < n,
                n == paths@.len(),
                p == path_views(paths@),
                current@ == p[i as int],
                forall|k: int| 0 <= k < order.len() ==> order@[k] < i,
                forall|k: int| 0 <= k < pos ==> !seq_less(p[i as int], #[trigger] p[order@[k] as int]),
            decreases order.len() - pos,
        {
            pos += 1;
        }
        proof {
            assert forall|k: int| pos <= k < order.len() implies seq_less(
                p[i as int],
                #[trigger] p[order@[k] as int],
            ) by {
                let first = p[order@[pos as int] as int];
                assert(seq_less(p[i as int], first));
                if k > pos {
                    assert(name_before(p, order@[pos as int], order@[k]));
                    if seq_less(first, p[order@[k] as int]) {
                        lemma_less_transitive(p[i as int], first, p[order@[k] as int]);
                    }
                }
            }
        }
        let ghost before = order@;
        order.insert(pos, i);
        proof {
            assert forall|a: int, b: int|
                #![trigger order@[a], order@[b]]
                0 <= a < b < order.len() implies name_before(p, order@[a], order@[b]) by {
                if b < pos {
                    assert(order@[a] == before[a] && order@[b] == before[b]);
                } else if b == pos {
                    assert(order@[a] == before[a]);
                    let x = p[order@[a] as int];
                    let y = p[i as int];
                    assert(!seq_less(y, x));
                    if x != y {
                        lemma_less_total(x, y);
                    }
                } else if a < pos {
                    assert(order@[a] == before[a] && order@[b] == before[b - 1]);
                } else if a == pos {
                    assert(order@[b] == before[b - 1]);
                } else {
                    assert(order@[a] == before[a - 1] && order@[b] == before[b - 1]);
                }
            }
        }
        i += 1;
    }
    order
}

} // verus!
