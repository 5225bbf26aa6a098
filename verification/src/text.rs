//! Text primitives for the line parser: the whitespace model, tag
//! normalization, value trimming, colon splitting, line splitting and
//! substring search, each with a spec-level model.

use vstd::prelude::*;

verus! {

/// The Unicode `White_Space` code points, the set that `str::trim` and
/// `char::is_whitespace` work from.
pub open spec fn is_space(c: char) -> bool {
    let u = c as u32;
    u == 0x09 || u == 0x0A || u == 0x0B || u == 0x0C || u == 0x0D || u == 0x20 || u == 0x85
        || u == 0xA0 || u == 0x1680 || (0x2000 <= u && u <= 0x200A) || u == 0x2028 || u == 0x2029
        || u == 0x202F || u == 0x205F || u == 0x3000
}

/// Decides `is_space` executably.
pub fn is_space_char(c: char) -> (r: bool)
    ensures
        r == is_space(c),
{
    let u: u32 = c as u32;
    u == 0x09 || u == 0x0A || u == 0x0B || u == 0x0C || u == 0x0D || u == 0x20 || u == 0x85
        || u == 0xA0 || u == 0x1680 || (0x2000 <= u && u <= 0x200A) || u == 0x2028 || u == 0x2029
        || u == 0x202F || u == 0x205F || u == 0x3000
}

/// A tag is normalized by deleting every whitespace character, wherever it
/// stands in the text.
pub open spec fn normalize(s: Seq<char>) -> Seq<char> {
    s.filter(|c: char| !is_space(c))
}

/// Relies on String::push: appends exactly the one character.
#[verifier::external_body]
fn push_char(s: &mut String, c: char)
    ensures
        final(s)@ == old(s)@.push(c),
{
    s.push(c);
}

/// Copies `s` with every whitespace character deleted.
pub fn normalize_str(s: &str) -> (r: String)
    ensures
        r@ == normalize(s@),
{
    let n: usize = s.unicode_len();
    let mut out = String::new();
    let mut i: usize = 0;
    while i < n
        invariant
            n == s@.len(),
            i <= n,
            out@ == normalize(s@.take(i as int)),
        decreases n - i,
    {
        let c = s.get_char(i);
        proof {
            reveal(Seq::filter);
            assert(s@.take(i + 1).drop_last() =~= s@.take(i as int));
            assert(s@.take(i + 1).last() == c);
        }
        if !is_space_char(c) {
            push_char(&mut out, c);
        }
        i = i + 1;
    }
    proof {
        assert(s@.take(n as int) =~= s@);
    }
    out
}

/// The text with its leading whitespace removed.
pub open spec fn trim_front(s: Seq<char>) -> Seq<char>
    decreases s.len(),
{
    if s.len() > 0 && is_space(s[0]) {
        trim_front(s.skip(1))
    } else {
        s
    }
}

/// The text with its trailing whitespace removed.
pub open spec fn trim_back(s: Seq<char>) -> Seq<char>
    decreases s.len(),
{
    if s.len() > 0 && is_space(s.last()) {
        trim_back(s.drop_last())
    } else {
        s
    }
}

/// The text with leading and trailing whitespace removed; internal
/// whitespace is preserved.
pub open spec fn trimmed(s: Seq<char>) -> Seq<char> {
    trim_back(trim_front(s))
}

proof fn lemma_trim_front(s: Seq<char>, a: int)
    requires
        0 <= a <= s.len(),
        forall|j: int| 0 <= j < a ==> is_space(s[j]),
        a < s.len() ==> !is_space(s[a]),
    ensures
        trim_front(s) == s.skip(a),
    decreases a,
{
    if a == 0 {
        assert(s.skip(0) =~= s);
    } else {
        lemma_trim_front(s.skip(1), a - 1);
        assert(s.skip(1).skip(a - 1) =~= s.skip(a));
    }
}

proof fn lemma_trim_back(s: Seq<char>, b: int)
    requires
        0 <= b <= s.len(),
        forall|j: int| b <= j < s.len() ==> is_space(s[j]),
        b > 0 ==> !is_space(s[b - 1]),
    ensures
        trim_back(s) == s.take(b),
    decreases s.len() - b,
{
    if b == s.len() {
        if s.len() > 0 {
            assert(!is_space(s.last()));
        }
        assert(s.take(b) =~= s);
    } else {
        lemma_trim_back(s.drop_last(), b);
        assert(s.drop_last().take(b) =~= s.take(b));
    }
}

/// Copies `s` with leading and trailing whitespace removed.
pub fn trim_str(s: &str) -> (r: String)
    ensures
        r@ == trimmed(s@),
{
    let n: usize = s.unicode_len();
    let mut a: usize = 0;
    while a < n && is_space_char(s.get_char(a))
        invariant
            n == s@.len(),
            a <= n,
            forall|j: int| 0 <= j < a ==> is_space(s@[j]),
        decreases n - a,
    {
        a = a + 1;
    }
    let mut b: usize = n;
    while b > a && is_space_char(s.get_char(b - 1))
        invariant
            n == s@.len(),
            a <= b <= n,
            forall|j: int| b <= j < n ==> is_space(s@[j]),
        decreases b,
    {
        b = b - 1;
    }
    proof {
        lemma_trim_front(s@, a as int);
        let rest = s@.skip(a as int);
        assert forall|j: int| (b - a) <= j < rest.len() implies is_space(rest[j]) by {
            assert(rest[j] == s@[j + a]);
        }
        lemma_trim_back(rest, b - a);
        assert(rest.take(b - a) =~= s@.subrange(a as int, b as int));
    }
    let sub = s.substring_char(a, b);
    sub.to_owned()
}

/// The index of the first colon in `s`, or `s.len()` when there is none.
pub open spec fn first_colon(s: Seq<char>) -> int
    decreases s.len(),
{
    if s.len() == 0 {
        0
    } else if s[0] == ':' {
        0
    } else {
        1 + first_colon(s.skip(1))
    }
}

pub proof fn lemma_first_colon(s: Seq<char>)
    ensures
        0 <= first_colon(s) <= s.len(),
        forall|j: int| 0 <= j < first_colon(s) ==> s[j] != ':',
        first_colon(s) < s.len() ==> s[first_colon(s)] == ':',
    decreases s.len(),
{
    if s.len() == 0 || s[0] == ':' {
    } else {
        lemma_first_colon(s.skip(1));
        assert forall|j: int| 0 <= j < first_colon(s) implies s[j] != ':' by {
            if j > 0 {
                assert(s.skip(1)[j - 1] == s[j]);
            }
        }
        if first_colon(s) < s.len() {
            assert(s.skip(1)[first_colon(s) - 1] == s[first_colon(s)]);
        }
    }
}

/// The index just after the last colon in `s`, or 0 when there is none:
/// the start of the last colon-delimited segment.
pub open spec fn last_segment_start(s: Seq<char>) -> int
    decreases s.len(),
{
    if s.len() == 0 {
        0
    } else if s.last() == ':' {
        s.len() as int
    } else {
        last_segment_start(s.drop_last())
    }
}

pub proof fn lemma_last_segment_start(s: Seq<char>)
    ensures
        0 <= last_segment_start(s) <= s.len(),
        forall|j: int| last_segment_start(s) <= j < s.len() ==> s[j] != ':',
        last_segment_start(s) > 0 ==> s[last_segment_start(s) - 1] == ':',
    decreases s.len(),
{
    if s.len() == 0 || s.last() == ':' {
    } else {
        lemma_last_segment_start(s.drop_last());
        assert forall|j: int| last_segment_start(s) <= j < s.len() implies s[j] != ':' by {
            if j < s.len() - 1 {
                assert(s.drop_last()[j] == s[j]);
            }
        }
        if last_segment_start(s) > 0 {
            assert(s.drop_last()[last_segment_start(s) - 1] == s[last_segment_start(s) - 1]);
        }
    }
}

/// The normalized tag of one output line: everything before the first colon
/// (the whole line when there is none), with all whitespace deleted.
pub open spec fn tag_of(line: Seq<char>) -> Seq<char> {
    normalize(line.take(first_colon(line)))
}

/// The value of one output line: the last colon-delimited segment (the whole
/// line when there is no colon), trimmed at both ends.
pub open spec fn value_of(line: Seq<char>) -> Seq<char> {
    trimmed(line.skip(last_segment_start(line)))
}

/// Splits one output line into its normalized tag and its trimmed value.
pub fn parse_line(line: &str) -> (r: (String, String))
    ensures
        r.0@ == tag_of(line@),
        r.1@ == value_of(line@),
{
    let n: usize = line.unicode_len();
    let mut fc: usize = 0;
    while fc < n && line.get_char(fc) != ':'
        invariant
            n == line@.len(),
            fc <= n,
            forall|j: int| 0 <= j < fc ==> line@[j] != ':',
        decreases n - fc,
    {
        fc = fc + 1;
    }
    proof {
        lemma_first_colon(line@);
        let d = first_colon(line@);
        if d < fc {
            assert(line@[d] != ':');
        }
        if fc < d {
            assert(line@[fc as int] != ':');
            assert(line@[fc as int] == ':');
        }
        assert(fc as int == d);
    }
    let tag_part = line.substring_char(0, fc);
    proof {
        assert(tag_part@ =~= line@.take(fc as int));
    }
    let tag = normalize_str(tag_part);
    let mut ls: usize = n;
    while ls > 0 && line.get_char(ls - 1) != ':'
        invariant
            n == line@.len(),
            ls <= n,
            forall|j: int| ls <= j < n ==> line@[j] != ':',
        decreases ls,
    {
        ls = ls - 1;
    }
    proof {
        lemma_last_segment_start(line@);
        let d = last_segment_start(line@);
        if d < ls {
            assert(line@[ls - 1] != ':');
            assert(line@[ls - 1] == ':');
        }
        if ls < d {
            assert(line@[d - 1] != ':');
        }
        assert(ls as int == d);
    }
    let value_part = line.substring_char(ls, n);
    proof {
        assert(value_part@ =~= line@.skip(ls as int));
    }
    let value = trim_str(value_part);
    (tag, value)
}

/// The lines of `s`, split on the newline character. Empty input gives one
/// empty line, and a trailing newline gives a final empty line, as the
/// standard splitting does.
pub open spec fn lines_of(s: Seq<char>) -> Seq<Seq<char>>
    decreases s.len(),
{
    if s.len() == 0 {
        seq![Seq::<char>::empty()]
    } else {
        let rest = lines_of(s.drop_last());
        if s.last() == '\n' {
            rest.push(Seq::<char>::empty())
        } else {
            rest.update(rest.len() - 1, rest.last().push(s.last()))
        }
    }
}

pub proof fn lemma_lines_of_len(s: Seq<char>)
    ensures
        lines_of(s).len() >= 1,
    decreases s.len(),
{
    if s.len() > 0 {
        lemma_lines_of_len(s.drop_last());
    }
}

/// Splits `text` into its lines on the newline character.
pub fn split_lines(text: &str) -> (r: Vec<String>)
    ensures
        r.deep_view() == lines_of(text@),
{
    let n: usize = text.unicode_len();
    let mut out: Vec<String> = Vec::new();
    let mut cur = String::new();
    let mut i: usize = 0;
    proof {
        assert(text@.take(0) =~= Seq::<char>::empty());
        assert(out.deep_view().push(cur@) =~~= lines_of(text@.take(0)));
    }
    while i < n
        invariant
            n == text@.len(),
            i <= n,
            out.deep_view().push(cur@) == lines_of(text@.take(i as int)),
        decreases n - i,
    {
        let c = text.get_char(i);
        let ghost prev = out.deep_view().push(cur@);
        proof {
            assert(text@.take(i + 1).drop_last() =~= text@.take(i as int));
            assert(text@.take(i + 1).last() == c);
            lemma_lines_of_len(text@.take(i as int));
        }
        if c == '\n' {
            out.push(cur);
            cur = String::new();
            proof {
                assert(out.deep_view().push(cur@) =~~= prev.push(Seq::<char>::empty()));
            }
        } else {
            push_char(&mut cur, c);
            proof {
                assert(out.deep_view().push(cur@) =~~= prev.update(
                    prev.len() - 1,
                    prev.last().push(c),
                ));
            }
        }
        i = i + 1;
    }
    out.push(cur);
    proof {
        assert(text@.take(n as int) =~= text@);
    }
    out
}

/// Whether `needle` occurs as a contiguous run inside `hay`.
pub open spec fn contains_seq(hay: Seq<char>, needle: Seq<char>) -> bool {
    exists|i: int|
        0 <= i && i + needle.len() <= hay.len() && #[trigger] hay.subrange(i, i + needle.len())
            == needle
}

fn match_at(hay: &str, needle: &str, i: usize) -> (r: bool)
    requires
        i + needle@.len() <= hay@.len(),
    ensures
        r == (hay@.subrange(i as int, i + needle@.len()) == needle@),
{
    let hl: usize = hay.unicode_len();
    let nl: usize = needle.unicode_len();
    let mut j: usize = 0;
    while j < nl
        invariant
            hl == hay@.len(),
            nl == needle@.len(),
            i + nl <= hl,
            j <= nl,
            forall|t: int| 0 <= t < j ==> hay@[i + t] == needle@[t],
        decreases nl - j,
    {
        if hay.get_char(i + j) != needle.get_char(j) {
            proof {
                assert(hay@.subrange(i as int, i + nl as int)[j as int] == hay@[i + j]);
            }
            return false;
        }
        j = j + 1;
    }
    proof {
        assert(hay@.subrange(i as int, i + nl as int) =~= needle@);
    }
    true
}

/// Decides `contains_seq` executably.
pub fn contains_substr(hay: &str, needle: &str) -> (r: bool)
    ensures
        r == contains_seq(hay@, needle@),
{
    let hl: usize = hay.unicode_len();
    let nl: usize = needle.unicode_len();
    if nl > hl {
        return false;
    }
    if nl == 0 {
        proof {
            assert(hay@.subrange(0, 0 + needle@.len() as int) =~= needle@);
            assert(contains_seq(hay@, needle@));
        }
        return true;
    }
    let mut i: usize = 0;
    while i <= hl - nl
        invariant
            hl == hay@.len(),
            nl == needle@.len(),
            1 <= nl <= hl,
            i <= hl - nl + 1,
            forall|k: int| 0 <= k < i ==> #[trigger] hay@.subrange(k, k + nl as int) != needle@,
        decreases hl + 1 - i,
    {
        if match_at(hay, needle, i) {
            return true;
        }
        i = i + 1;
    }
    false
}

} // verus!
