//! Plain-text helpers: whitespace trimming, ASCII lowercasing, string
//! equality, confirmation answers, and the file names the utility derives
//! from space names.

use vstd::prelude::*;
use vstd::string::StringExecFns;
use crate::chars::{string_to_chars, chars_to_string};

verus! {

/// The whitespace characters the utility trims.
pub open spec fn is_ws(c: char) -> bool {
    c == ' ' || c == '\n' || c == '\t' || c == '\r'
}

/// `s` without its leading whitespace.
pub open spec fn trim_front(s: Seq<char>) -> Seq<char>
    decreases s.len(),
{
    if s.len() > 0 && is_ws(s[0]) {
        trim_front(s.drop_first())
    } else {
        s
    }
}

/// `s` without its trailing whitespace.
pub open spec fn trim_back(s: Seq<char>) -> Seq<char>
    decreases s.len(),
{
    if s.len() > 0 && is_ws(s.last()) {
        trim_back(s.drop_last())
    } else {
        s
    }
}

/// `s` without leading and trailing whitespace.
pub open spec fn trim_spec(s: Seq<char>) -> Seq<char> {
    trim_back(trim_front(s))
}

proof fn lemma_trim_front_skip(s: Seq<char>, i: int)
    requires
        0 <= i <= s.len(),
        forall|k: int| 0 <= k < i ==> is_ws(s[k]),
        i < s.len() ==> !is_ws(s[i]),
    ensures
        trim_front(s) == s.skip(i),
    decreases i,
{
    if i == 0 {
        assert(s.skip(0) =~= s);
    } else {
        assert(is_ws(s[0]));
        lemma_trim_front_skip(s.drop_first(), i - 1);
        assert(s.drop_first().skip(i - 1) =~= s.skip(i));
    }
}

proof fn lemma_trim_back_take(s: Seq<char>, i: int)
    requires
        0 <= i <= s.len(),
        forall|k: int| i <= k < s.len() ==> is_ws(s[k]),
        i > 0 ==> !is_ws(s[i - 1]),
    ensures
        trim_back(s) == s.take(i),
    decreases s.len(),
{
    if i == s.len() {
        assert(s.take(i) =~= s);
    } else {
        assert(is_ws(s.last()));
        lemma_trim_back_take(s.drop_last(), i);
        assert(s.drop_last().take(i) =~= s.take(i));
    }
}

/// Whether `c` is one of the trimmed whitespace characters.
pub fn is_ws_exec(c: char) -> (r: bool)
    ensures
        r == is_ws(c),
{
    c == ' ' || c == '\n' || c == '\t' || c == '\r'
}

/// `s` with leading and trailing whitespace removed.
pub fn trim(s: &str) -> (r: String)
    ensures
        r@ == trim_spec(s@),
{
    let cs = string_to_chars(s);
    let n = cs.len();
    let mut lo: usize = 0;
    while lo < n && is_ws_exec(cs[lo])
        invariant
            lo <= n,
            n == cs@.len(),
            forall|k: int| 0 <= k < lo ==> is_ws(cs@[k]),
        decreases n - lo,
    {
        lo = lo + 1;
    }
    let mut hi: usize = n;
    while hi > lo && is_ws_exec(cs[hi - 1])
        invariant
            lo <= hi <= n,
            n == cs@.len(),
            forall|k: int| 0 <= k < lo ==> is_ws(cs@[k]),
            forall|k: int| hi <= k < n ==> is_ws(cs@[k]),
        decreases hi,
    {
        hi = hi - 1;
    }
    proof {
        lemma_trim_front_skip(cs@, lo as int);
        let t = cs@.skip(lo as int);
        assert(forall|k: int| hi - lo <= k < t.len() ==> is_ws(t[k]));
        lemma_trim_back_take(t, hi - lo);
        assert(t.take(hi - lo) =~= cs@.subrange(lo as int, hi as int));
    }
    let mut out: Vec<char> = Vec::new();
    let mut i: usize = lo;
    while i < hi
        invariant
            lo <= i <= hi <= n,
            n == cs@.len(),
            out@ == cs@.subrange(lo as int, i as int),
        decreases hi - i,
    {
        out.push(cs[i]);
        proof {
            assert(out@ =~= cs@.subrange(lo as int, i + 1 as int));
        }
        i = i + 1;
    }
    chars_to_string(&out)
}

/// ASCII letters lowered; every other character kept.
pub open spec fn lower_char(c: char) -> char {
    if 65 <= c as u32 && c as u32 <= 90 {
        ((c as u32 + 32) as u8) as char
    } else {
        c
    }
}

/// `s` with its ASCII letters lowered.
pub open spec fn lower_spec(s: Seq<char>) -> Seq<char> {
    s.map_values(|c: char| lower_char(c))
}

/// `s` with its ASCII letters lowered.
pub fn lower_ascii(s: &str) -> (r: String)
    ensures
        r@ == lower_spec(s@),
{
    let cs = string_to_chars(s);
    let n = cs.len();
    let mut out: Vec<char> = Vec::new();
    let mut i: usize = 0;
    while i < n
        invariant
            i <= n,
            n == cs@.len(),
            out@.len() == i,
            forall|k: int| 0 <= k < i ==> out@[k] == lower_char(cs@[k]),
        decreases n - i,
    {
        let c = cs[i];
        let u = c as u32;
        if 65 <= u && u <= 90 {
            out.push(((u + 32) as u8) as char);
        } else {
            out.push(c);
        }
        i = i + 1;
    }
    proof {
        assert(out@ =~= lower_spec(cs@));
    }
    chars_to_string(&out)
}

/// Whether two strings hold the same characters.
pub fn str_eq(a: &str, b: &str) -> (r: bool)
    ensures
        r == (a@ == b@),
{
    let ca = string_to_chars(a);
    let cb = string_to_chars(b);
    if ca.len() != cb.len() {
        return false;
    }
    let n = ca.len();
    let mut i: usize = 0;
    while i < n
        invariant
            i <= n,
            n == ca@.len() == cb@.len(),
            ca@ == a@,
            cb@ == b@,
            forall|k: int| 0 <= k < i ==> ca@[k] == cb@[k],
        decreases n - i,
    {
        if ca[i] != cb[i] {
            return false;
        }
        i = i + 1;
    }
    proof {
        assert(a@ =~= b@);
    }
    true
}

/// What a line of confirmation input means.
pub enum Answer {
    Yes,
    No,
    Other,
}

/// The meaning of a confirmation line: trimmed and lowered, `y`/`yes`
/// confirms and `n`/`no` declines; anything else is unrecognized.
pub open spec fn answer_spec(s: Seq<char>) -> Answer {
    let t = lower_spec(trim_spec(s));
    if t == "y"@ || t == "yes"@ {
        Answer::Yes
    } else if t == "n"@ || t == "no"@ {
        Answer::No
    } else {
        Answer::Other
    }
}

/// Reads a confirmation line. Only `Answer::Yes` permits a destructive step.
pub fn parse_answer(input: &str) -> (a: Answer)
    ensures
        a == answer_spec(input@),
{
    let t = lower_ascii(trim(input).as_str());
    if str_eq(t.as_str(), "y") || str_eq(t.as_str(), "yes") {
        Answer::Yes
    } else if str_eq(t.as_str(), "n") || str_eq(t.as_str(), "no") {
        Answer::No
    } else {
        Answer::Other
    }
}

/// The file name that backs a space: the space's name with `.json` appended.
pub fn space_file_name(name: &str) -> (r: String)
    ensures
        r@ == name@ + ".json"@,
{
    String::from_str(name).concat(".json")
}

/// The content written to the current-space pointer file: the name and a
/// trailing newline.
pub fn pointer_file_content(name: &str) -> (r: String)
    ensures
        r@ == name@ + "\n"@,
{
    String::from_str(name).concat("\n")
}

/// The current space named by the pointer file's content: its trimmed text,
/// or `default` when the file was absent or unreadable.
pub fn resolve_current_space(content: Option<&String>) -> (r: String)
    ensures
        content is None ==> r@ == "default"@,
        content matches Some(c) ==> r@ == trim_spec(c@),
{
    match content {
        None => String::from_str("default"),
        Some(c) => trim(c.as_str()),
    }
}

/// Whether a file name ends in `.json`.
pub open spec fn is_json_name(s: Seq<char>) -> bool {
    s.len() >= 5 && s.skip(s.len() - 5) == ".json"@
}

/// The space names among a directory's file names: the stems of those that
/// end in `.json`, in the order given.
pub open spec fn space_names_spec(files: Seq<Seq<char>>) -> Seq<Seq<char>>
    decreases files.len(),
{
    if files.len() == 0 {
        Seq::<Seq<char>>::empty()
    } else {
        let rest = space_names_spec(files.drop_last());
        if is_json_name(files.last()) {
            rest.push(files.last().take(files.last().len() - 5))
        } else {
            rest
        }
    }
}

/// The space names among `files`: the stems of the `.json` file names.
pub fn space_names(files: &Vec<String>) -> (r: Vec<String>)
    ensures
        r.deep_view() == space_names_spec(files.deep_view()),
{
    proof {
        reveal_strlit(".json");
    }
    let mut r: Vec<String> = Vec::new();
    let n = files.len();
    let mut i: usize = 0;
    proof {
        assert(files.deep_view().take(0) =~= Seq::<Seq<char>>::empty());
    }
    while i < n
        invariant
            i <= n,
            n == files@.len(),
            r.deep_view() == space_names_spec(files.deep_view().take(i as int)),
        decreases n - i,
    {
        let cs = string_to_chars(files[i].as_str());
        let m = cs.len();
        proof {
            assert(files.deep_view().take(i + 1 as int).drop_last() =~= files.deep_view().take(
                i as int,
            ));
            assert(files.deep_view().take(i + 1 as int).last() == cs@);
            reveal_strlit(".json");
        }
        if m >= 5 && cs[m - 5] == '.' && cs[m - 4] == 'j' && cs[m - 3] == 's' && cs[m - 2] == 'o'
            && cs[m - 1] == 'n' {
            proof {
                assert(cs@.skip(m - 5 as int) =~= ".json"@);
            }
            let mut stem: Vec<char> = Vec::new();
            let mut j: usize = 0;
            while j < m - 5
                invariant
                    j <= m - 5,
                    m == cs@.len(),
                    m >= 5,
                    stem@ == cs@.take(j as int),
                decreases m - 5 - j,
            {
                stem.push(cs[j]);
                proof {
                    assert(stem@ =~= cs@.take(j + 1 as int));
                }
                j = j + 1;
            }
            r.push(chars_to_string(&stem));
            proof {
                assert(r.deep_view() =~= space_names_spec(files.deep_view().take(i + 1 as int)));
            }
        } else {
            proof {
                reveal_strlit(".json");
                if cs@.len() >= 5 && cs@.skip(cs@.len() - 5) == ".json"@ {
                    let t = cs@.skip(cs@.len() - 5);
                    assert(t[0] == cs@[cs@.len() - 5]);
                    assert(t[1] == cs@[cs@.len() - 4]);
                    assert(t[2] == cs@[cs@.len() - 3]);
                    assert(t[3] == cs@[cs@.len() - 2]);
                    assert(t[4] == cs@[cs@.len() - 1]);
                }
                assert(r.deep_view() =~= space_names_spec(files.deep_view().take(i + 1 as int)));
            }
        }
        i = i + 1;
    }
    proof {
        assert(files.deep_view().take(n as int) =~= files.deep_view());
    }
    r
}

} // verus!
