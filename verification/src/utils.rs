//! Path helpers for locating plugin entry scripts and deriving plugin
//! identifiers from them.
//!
//! These helpers commit to `/` as the separator, the unix form:
//! normalization rewrites every backslash to it, so discovery treats
//! paths uniformly whatever listing produced them.  A unix filename may
//! legally contain a backslash; such a name is treated as holding a
//! separator here.  A platform whose native separator is the backslash
//! would need its own build of these helpers.

use vstd::prelude::*;
use vstd::string::StrSliceExecFns;

verus! {

/// A path with every backslash turned into a forward slash.
pub open spec fn normalized(s: Seq<char>) -> Seq<char> {
    s.map_values(|c: char| if c == '\\' { '/' } else { c })
}

/// The index of the last separator strictly before `end`, or -1 when no
/// separator occurs there.
pub open spec fn last_sep_before(s: Seq<char>, end: int) -> int
    decreases end,
{
    if end <= 0 {
        -1
    } else if s[end - 1] == '/' {
        end - 1
    } else {
        last_sep_before(s, end - 1)
    }
}

/// Whether the path holds at least one separator.
pub open spec fn has_separator(s: Seq<char>) -> bool {
    last_sep_before(s, s.len() as int) >= 0
}

/// The plugin identifier a path denotes: the name of the directory that
/// holds the entry script, i.e. the segment between the last two
/// separators (or everything before the last separator when it is the
/// only one).
pub open spec fn id_of_path(s: Seq<char>) -> Seq<char> {
    let sep = last_sep_before(s, s.len() as int);
    let before = last_sep_before(s, sep);
    s.subrange(before + 1, sep)
}

/// The path separator used throughout plugin discovery.
pub fn separator() -> (r: &'static str)
    ensures
        r@ == seq!['/'],
{
    proof {
        reveal_strlit("/");
    }
    "/"
}

/// Normalizes a path to forward slashes, so that discovery can treat every
/// directory listing uniformly.
pub fn safe_path(path: &str) -> (r: String)
    ensures
        r@ == normalized(path@),
{
    let n: usize = path.unicode_len();
    let mut out: String = String::new();
    let mut i: usize = 0;
    while i < n
        invariant
            i <= n,
            n == path@.len(),
            out@ == normalized(path@.subrange(0, i as int)),
        decreases n - i,
    {
        let c: char = path.get_char(i);
        if c == '\\' {
            out.append("/");
            proof {
                reveal_strlit("/");
            }
        } else {
            let piece: &str = path.substring_char(i, i + 1);
            out.append(piece);
        }
        proof {
            assert(out@ =~= normalized(path@.subrange(0, i + 1)));
        }
        i += 1;
    }
    proof {
        assert(path@.subrange(0, n as int) =~= path@);
    }
    out
}

/// Derives the plugin identifier from the path of its entry script: the
/// containing directory's name, never the script's own.
pub fn plugin_id_from_path(path: &str) -> (id: String)
    requires
        has_separator(path@),
    ensures
        id@ == id_of_path(path@),
{
    let n: usize = path.unicode_len();
    let mut e: usize = n;
    while e > 0 && path.get_char(e - 1) != '/'
        invariant
            0 <= e <= n,
            n == path@.len(),
            last_sep_before(path@, n as int) == last_sep_before(path@, e as int),
        decreases e,
    {
        e = e - 1;
    }
    assert(e > 0);
    let sep: usize = e - 1;
    assert(last_sep_before(path@, n as int) == sep);
    let mut b: usize = sep;
    while b > 0 && path.get_char(b - 1) != '/'
        invariant
            0 <= b <= sep,
            sep < n,
            n == path@.len(),
            last_sep_before(path@, sep as int) == last_sep_before(path@, b as int),
        decreases b,
    {
        b = b - 1;
    }
    let id: String = path.substring_char(b, sep).to_owned();
    proof {
        assert(id@ =~= id_of_path(path@));
    }
    id
}

} // verus!
