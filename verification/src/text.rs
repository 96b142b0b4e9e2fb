//! Character-level text handling: the handful of `str` operations that the
//! stash browser relies on (`lines`, `split_once`, `strip_prefix`, `trim`,
//! integer parsing and printing), each stated over `Seq<char>`.
use vstd::prelude::*;

verus! {

// ---------------------------------------------------------------------------
// Specifications
// ---------------------------------------------------------------------------

/// `pat` occurs in `s` starting at index `i`.
pub open spec fn occurs_at(s: Seq<char>, pat: Seq<char>, i: int) -> bool {
    0 <= i && i + pat.len() <= s.len() && s.subrange(i, i + pat.len()) == pat
}

/// `i` is the leftmost occurrence of `pat` in `s`.
pub open spec fn is_first_occurrence(s: Seq<char>, pat: Seq<char>, i: int) -> bool {
    &&& occurs_at(s, pat, i)
    &&& forall|j: int| 0 <= j < i ==> !occurs_at(s, pat, j)
}

/// Index of the leftmost occurrence of `pat` in `s`, if any.
pub open spec fn first_occurrence(s: Seq<char>, pat: Seq<char>) -> Option<int> {
    if exists|i: int| is_first_occurrence(s, pat, i) {
        Some(choose|i: int| is_first_occurrence(s, pat, i))
    } else {
        None
    }
}

/// `i` is the leftmost position of the character `c` in `s`.
pub open spec fn is_first_char(s: Seq<char>, c: char, i: int) -> bool {
    &&& 0 <= i < s.len()
    &&& s[i] == c
    &&& forall|j: int| 0 <= j < i ==> s[j] != c
}

/// Index of the leftmost `c` in `s`, if any.
pub open spec fn index_of(s: Seq<char>, c: char) -> Option<int> {
    if exists|i: int| is_first_char(s, c, i) {
        Some(choose|i: int| is_first_char(s, c, i))
    } else {
        None
    }
}

/// `str::split_once`: the text before and after the leftmost `pat`.
pub open spec fn split_once(s: Seq<char>, pat: Seq<char>) -> Option<(Seq<char>, Seq<char>)> {
    match first_occurrence(s, pat) {
        Some(i) => Some((s.take(i), s.skip(i + pat.len())), ),
        None => None,
    }
}

/// `str::strip_prefix`.
pub open spec fn strip_prefix(s: Seq<char>, p: Seq<char>) -> Option<Seq<char>> {
    if p.len() <= s.len() && s.take(p.len() as int) == p {
        Some(s.skip(p.len() as int))
    } else {
        None
    }
}

/// Drops one trailing carriage return.
pub open spec fn strip_cr(l: Seq<char>) -> Seq<char> {
    if l.len() > 0 && l.last() == '\r' {
        l.drop_last()
    } else {
        l
    }
}

/// `str::lines`: split at `\n` (a `\r` right before it goes too); a final line
/// ending is optional and yields no empty last line.
pub open spec fn lines(s: Seq<char>) -> Seq<Seq<char>>
    decreases s.len(),
{
    if s.len() == 0 {
        seq![]
    } else {
        match index_of(s, '\n') {
            Some(k) => if 0 <= k < s.len() {
                seq![strip_cr(s.take(k))] + lines(s.skip(k + 1))
            } else {
                seq![s]
            },
            None => seq![s],
        }
    }
}

/// `str::split` on a single character: always at least one piece.
pub open spec fn split_char(s: Seq<char>, c: char) -> Seq<Seq<char>>
    decreases s.len(),
{
    match index_of(s, c) {
        Some(k) => if 0 <= k < s.len() {
            seq![s.take(k)] + split_char(s.skip(k + 1), c)
        } else {
            seq![s]
        },
        None => seq![s],
    }
}

/// `char::is_whitespace`: the Unicode `White_Space` property.
pub open spec fn is_ws(c: char) -> bool {
    ||| '\u{9}' <= c <= '\u{d}'
    ||| c == ' '
    ||| c == '\u{85}'
    ||| c == '\u{a0}'
    ||| c == '\u{1680}'
    ||| '\u{2000}' <= c <= '\u{200a}'
    ||| c == '\u{2028}'
    ||| c == '\u{2029}'
    ||| c == '\u{202f}'
    ||| c == '\u{205f}'
    ||| c == '\u{3000}'
}

/// `str::trim_end`.
pub open spec fn trim_end(s: Seq<char>) -> Seq<char>
    decreases s.len(),
{
    if s.len() > 0 && is_ws(s.last()) {
        trim_end(s.drop_last())
    } else {
        s
    }
}

/// `str::trim_start`.
pub open spec fn trim_start(s: Seq<char>) -> Seq<char>
    decreases s.len(),
{
    if s.len() > 0 && is_ws(s[0]) {
        trim_start(s.drop_first())
    } else {
        s
    }
}

/// `str::trim`.
pub open spec fn trim(s: Seq<char>) -> Seq<char> {
    trim_end(trim_start(s))
}

pub open spec fn is_digit(c: char) -> bool {
    '0' <= c <= '9'
}

pub open spec fn digit_value(c: char) -> nat {
    (c as int - '0' as int) as nat
}

/// Decimal value of a string of digits.
pub open spec fn digits_value(s: Seq<char>) -> nat
    decreases s.len(),
{
    if s.len() == 0 {
        0
    } else {
        digits_value(s.drop_last()) * 10 + digit_value(s.last())
    }
}

/// The text after an optional leading `+`.
pub open spec fn unsigned_body(s: Seq<char>) -> Seq<char> {
    if s.len() > 0 && s[0] == '+' {
        s.drop_first()
    } else {
        s
    }
}

pub open spec fn all_digits(s: Seq<char>) -> bool {
    forall|i: int| 0 <= i < s.len() ==> is_digit(s[i])
}

/// `<u32 as FromStr>::from_str`: an optional `+`, then one or more decimal
/// digits whose value fits in a `u32`.
pub open spec fn parse_u32(s: Seq<char>) -> Option<u32> {
    let body = unsigned_body(s);
    if body.len() > 0 && all_digits(body) && digits_value(body) <= u32::MAX {
        Some(digits_value(body) as u32)
    } else {
        None
    }
}

/// `s.parse::<u32>().unwrap_or(0)`.
pub open spec fn parse_u32_or_zero(s: Seq<char>) -> u32 {
    match parse_u32(s) {
        Some(v) => v,
        None => 0,
    }
}

pub open spec fn digit_char(d: nat) -> char {
    if d == 0 {
        '0'
    } else if d == 1 {
        '1'
    } else if d == 2 {
        '2'
    } else if d == 3 {
        '3'
    } else if d == 4 {
        '4'
    } else if d == 5 {
        '5'
    } else if d == 6 {
        '6'
    } else if d == 7 {
        '7'
    } else if d == 8 {
        '8'
    } else {
        '9'
    }
}

/// Decimal representation of `n`, as `Display` prints it.
pub open spec fn decimal(n: nat) -> Seq<char>
    decreases n,
{
    if n < 10 {
        seq![digit_char(n)]
    } else {
        decimal(n / 10).push(digit_char(n % 10))
    }
}

/// The pieces joined with `sep` between them.
pub open spec fn join(parts: Seq<Seq<char>>, sep: Seq<char>) -> Seq<char>
    decreases parts.len(),
{
    if parts.len() == 0 {
        seq![]
    } else if parts.len() == 1 {
        parts[0]
    } else {
        join(parts.drop_last(), sep) + sep + parts.last()
    }
}

pub open spec fn views(v: Seq<String>) -> Seq<Seq<char>> {
    v.map_values(|s: String| s@)
}

// ---------------------------------------------------------------------------
// Lemmas
// ---------------------------------------------------------------------------

pub proof fn lemma_first_char(s: Seq<char>, c: char, i: int)
    requires
        is_first_char(s, c, i),
    ensures
        index_of(s, c) == Some(i),
{
    let k = choose|k: int| is_first_char(s, c, k);
    assert(is_first_char(s, c, k));
    if k < i {
        assert(s[k] != c);
    } else if i < k {
        assert(s[i] != c);
    }
}

pub proof fn lemma_no_char(s: Seq<char>, c: char)
    requires
        forall|j: int| 0 <= j < s.len() ==> s[j] != c,
    ensures
        index_of(s, c) is None,
{
    if exists|i: int| is_first_char(s, c, i) {
        let k = choose|k: int| is_first_char(s, c, k);
        assert(s[k] != c);
    }
}

pub proof fn lemma_first_occurrence(s: Seq<char>, pat: Seq<char>, i: int)
    requires
        is_first_occurrence(s, pat, i),
    ensures
        first_occurrence(s, pat) == Some(i),
{
    let k = choose|k: int| is_first_occurrence(s, pat, k);
    assert(is_first_occurrence(s, pat, k));
    if k < i {
        assert(!occurs_at(s, pat, k));
    } else if i < k {
        assert(!occurs_at(s, pat, i));
    }
}

pub proof fn lemma_no_occurrence(s: Seq<char>, pat: Seq<char>)
    requires
        forall|j: int| !occurs_at(s, pat, j),
    ensures
        first_occurrence(s, pat) is None,
{
    if exists|i: int| is_first_occurrence(s, pat, i) {
        let k = choose|k: int| is_first_occurrence(s, pat, k);
        assert(occurs_at(s, pat, k));
    }
}

/// Unfolds `lines` at a known first line ending.
pub proof fn lemma_lines_step(s: Seq<char>, k: int)
    requires
        is_first_char(s, '\n', k),
    ensures
        lines(s) == seq![strip_cr(s.take(k))] + lines(s.skip(k + 1)),
{
    lemma_first_char(s, '\n', k);
}

/// `lines` of text without any line ending is that text alone.
pub proof fn lemma_lines_last(s: Seq<char>)
    requires
        s.len() > 0,
        forall|j: int| 0 <= j < s.len() ==> s[j] != '\n',
    ensures
        lines(s) == seq![s],
{
    lemma_no_char(s, '\n');
}

pub proof fn lemma_split_step(s: Seq<char>, c: char, k: int)
    requires
        is_first_char(s, c, k),
    ensures
        split_char(s, c) == seq![s.take(k)] + split_char(s.skip(k + 1), c),
{
    lemma_first_char(s, c, k);
}

pub proof fn lemma_split_last(s: Seq<char>, c: char)
    requires
        forall|j: int| 0 <= j < s.len() ==> s[j] != c,
    ensures
        split_char(s, c) == seq![s],
{
    lemma_no_char(s, c);
}

pub proof fn lemma_views_push(v: Seq<String>, x: String)
    ensures
        views(v.push(x)) == views(v).push(x@),
{
    assert(views(v.push(x)) =~= views(v).push(x@));
}

// ---------------------------------------------------------------------------
// Executable operations
// ---------------------------------------------------------------------------

/// Appends one character; `String::push`.
#[verifier::external_body]
pub(crate) fn push_char(s: &mut String, c: char)
    ensures
        final(s)@ == old(s)@.push(c),
{
    s.push(c);
}

/// The characters of `s`.
pub fn chars_of(s: &str) -> (v: Vec<char>)
    ensures
        v@ == s@,
{
    let mut v: Vec<char> = Vec::new();
    for c in it: s.chars()
        invariant
            v@ == it.seq().take(it.index() as int),
            it.seq() == s@,
    {
        v.push(c);
    }
    v
}

/// A `String` holding `cs[lo..hi]`.
pub fn string_of(cs: &Vec<char>, lo: usize, hi: usize) -> (r: String)
    requires
        lo <= hi <= cs.len(),
    ensures
        r@ == cs@.subrange(lo as int, hi as int),
{
    let mut r = String::new();
    let mut i = lo;
    while i < hi
        invariant
            lo <= i <= hi <= cs.len(),
            r@ == cs@.subrange(lo as int, i as int),
        decreases hi - i,
    {
        push_char(&mut r, cs[i]);
        assert(cs@.subrange(lo as int, i + 1) =~= cs@.subrange(lo as int, i as int).push(cs@[i as int]));
        i += 1;
    }
    r
}

/// `a` followed by `b`.
pub fn concat(a: &str, b: &str) -> (r: String)
    ensures
        r@ == a@ + b@,
{
    let mut r = String::from_str(a);
    r.append(b);
    r
}

/// A copy of `cs[lo..hi]`.
pub fn slice_of(cs: &Vec<char>, lo: usize, hi: usize) -> (r: Vec<char>)
    requires
        lo <= hi <= cs.len(),
    ensures
        r@ == cs@.subrange(lo as int, hi as int),
{
    let mut r: Vec<char> = Vec::new();
    let mut i = lo;
    while i < hi
        invariant
            lo <= i <= hi <= cs.len(),
            r@ == cs@.subrange(lo as int, i as int),
        decreases hi - i,
    {
        r.push(cs[i]);
        assert(cs@.subrange(lo as int, i + 1) =~= cs@.subrange(lo as int, i as int).push(cs@[i as int]));
        i += 1;
    }
    r
}

/// Whether `pat` occurs in `cs` at `at`.
pub fn matches_at(cs: &Vec<char>, pat: &Vec<char>, at: usize) -> (b: bool)
    ensures
        b == occurs_at(cs@, pat@, at as int),
{
    if at > cs.len() || pat.len() > cs.len() - at {
        return false;
    }
    let mut k: usize = 0;
    while k < pat.len()
        invariant
            at + pat.len() <= cs.len(),
            k <= pat.len(),
            forall|m: int| 0 <= m < k ==> cs@[at + m] == pat@[m],
        decreases pat.len() - k,
    {
        if cs[at + k] != pat[k] {
            assert(cs@.subrange(at as int, at + pat.len())[k as int] != pat@[k as int]);
            return false;
        }
        k += 1;
    }
    assert(cs@.subrange(at as int, at + pat.len()) =~= pat@);
    true
}

/// Leftmost occurrence of `pat` in `cs`.
pub fn find(cs: &Vec<char>, pat: &Vec<char>) -> (r: Option<usize>)
    ensures
        match r {
            Some(i) => first_occurrence(cs@, pat@) == Some(i as int),
            None => first_occurrence(cs@, pat@) is None,
        },
{
    let mut i: usize = 0;
    while i < cs.len()
        invariant
            i <= cs.len(),
            forall|j: int| 0 <= j < i ==> !occurs_at(cs@, pat@, j),
        decreases cs.len() - i,
    {
        if matches_at(cs, pat, i) {
            proof {
                lemma_first_occurrence(cs@, pat@, i as int);
            }
            return Some(i);
        }
        i += 1;
    }
    if matches_at(cs, pat, i) {
        proof {
            lemma_first_occurrence(cs@, pat@, i as int);
        }
        return Some(i);
    }
    proof {
        assert forall|j: int| !occurs_at(cs@, pat@, j) by {
            if j > cs@.len() as int {
                assert(!occurs_at(cs@, pat@, j));
            }
        }
        lemma_no_occurrence(cs@, pat@);
    }
    None
}

/// Leftmost position of `c` in `cs`.
pub fn find_char(cs: &Vec<char>, c: char) -> (r: Option<usize>)
    ensures
        match r {
            Some(i) => index_of(cs@, c) == Some(i as int) && is_first_char(cs@, c, i as int),
            None => index_of(cs@, c) is None,
        },
{
    let mut i: usize = 0;
    while i < cs.len()
        invariant
            i <= cs.len(),
            forall|j: int| 0 <= j < i ==> cs@[j] != c,
        decreases cs.len() - i,
    {
        if cs[i] == c {
            proof {
                lemma_first_char(cs@, c, i as int);
            }
            return Some(i);
        }
        i += 1;
    }
    proof {
        lemma_no_char(cs@, c);
    }
    None
}

/// `str::split_once` on characters.
pub fn split_once_chars(cs: &Vec<char>, pat: &Vec<char>) -> (r: Option<(Vec<char>, Vec<char>)>)
    ensures
        match r {
            Some((a, b)) => split_once(cs@, pat@) == Some((a@, b@)),
            None => split_once(cs@, pat@) is None,
        },
{
    match find(cs, pat) {
        Some(i) => {
            let a = slice_of(cs, 0, i);
            let b = slice_of(cs, i + pat.len(), cs.len());
            assert(a@ =~= cs@.take(i as int));
            assert(b@ =~= cs@.skip(i + pat@.len()));
            Some((a, b))
        },
        None => None,
    }
}

/// `str::strip_prefix` on characters.
pub fn strip_prefix_chars(cs: &Vec<char>, p: &Vec<char>) -> (r: Option<Vec<char>>)
    ensures
        match r {
            Some(rest) => strip_prefix(cs@, p@) == Some(rest@),
            None => strip_prefix(cs@, p@) is None,
        },
{
    if matches_at(cs, p, 0) {
        assert(cs@.subrange(0, p@.len() as int) =~= cs@.take(p@.len() as int));
        let rest = slice_of(cs, p.len(), cs.len());
        assert(rest@ =~= cs@.skip(p@.len() as int));
        Some(rest)
    } else {
        assert(p@.len() <= cs@.len() ==> cs@.subrange(0, p@.len() as int) =~= cs@.take(
            p@.len() as int,
        ));
        None
    }
}

/// `str::lines` on characters.
pub fn lines_chars(cs: &Vec<char>) -> (r: Vec<Vec<char>>)
    ensures
        r@.map_values(|l: Vec<char>| l@) == lines(cs@),
{
    let ghost s = cs@;
    let mut out: Vec<Vec<char>> = Vec::new();
    let mut start: usize = 0;
    let mut i: usize = 0;
    assert(s.skip(0) =~= s);
    assert(out@.map_values(|l: Vec<char>| l@) + lines(s) =~= lines(s));
    while i < cs.len()
        invariant
            s == cs@,
            start <= i <= cs.len(),
            out@.map_values(|l: Vec<char>| l@) + lines(s.skip(start as int)) == lines(s),
            forall|j: int| start <= j < i ==> s[j] != '\n',
        decreases cs.len() - i,
    {
        if cs[i] == '\n' {
            let ghost t = s.skip(start as int);
            let end = if i > start && cs[i - 1] == '\r' {
                i - 1
            } else {
                i
            };
            let line = slice_of(cs, start, end);
            proof {
                assert(is_first_char(t, '\n', i - start));
                lemma_lines_step(t, i - start);
                assert(t.take(i - start) =~= s.subrange(start as int, i as int));
                assert(t.skip(i - start + 1) =~= s.skip(i + 1));
                assert(line@ =~= strip_cr(s.subrange(start as int, i as int)));
                let old_views = out@.map_values(|l: Vec<char>| l@);
                assert(out@.push(line).map_values(|l: Vec<char>| l@) =~= old_views.push(line@));
                assert(old_views.push(line@) + lines(s.skip(i + 1)) =~= old_views + (seq![line@]
                    + lines(s.skip(i + 1))));
            }
            out.push(line);
            start = i + 1;
        }
        i += 1;
    }
    if start < cs.len() {
        let line = slice_of(cs, start, cs.len());
        proof {
            let t = s.skip(start as int);
            lemma_lines_last(t);
            assert(line@ =~= t);
            let old_views = out@.map_values(|l: Vec<char>| l@);
            assert(out@.push(line).map_values(|l: Vec<char>| l@) =~= old_views.push(line@));
        }
        out.push(line);
    } else {
        assert(s.skip(start as int) =~= Seq::<char>::empty());
        assert(out@.map_values(|l: Vec<char>| l@) =~= out@.map_values(|l: Vec<char>| l@) + lines(
            s.skip(start as int),
        ));
    }
    proof {
        let v = out@.map_values(|l: Vec<char>| l@);
        assert(v + lines(s.skip(cs.len() as int)) =~= v);
    }
    out
}

/// `str::split` on one character, on characters.
pub fn split_chars(cs: &Vec<char>, c: char) -> (r: Vec<Vec<char>>)
    ensures
        r@.map_values(|l: Vec<char>| l@) == split_char(cs@, c),
        r@.len() >= 1,
{
    let ghost s = cs@;
    let mut out: Vec<Vec<char>> = Vec::new();
    let mut start: usize = 0;
    let mut i: usize = 0;
    assert(s.skip(0) =~= s);
    assert(out@.map_values(|l: Vec<char>| l@) + split_char(s, c) =~= split_char(s, c));
    while i < cs.len()
        invariant
            s == cs@,
            start <= i <= cs.len(),
            out@.map_values(|l: Vec<char>| l@) + split_char(s.skip(start as int), c) == split_char(
                s,
            c),
            forall|j: int| start <= j < i ==> s[j] != c,
        decreases cs.len() - i,
    {
        if cs[i] == c {
            let ghost t = s.skip(start as int);
            let piece = slice_of(cs, start, i);
            proof {
                assert(is_first_char(t, c, i - start));
                lemma_split_step(t, c, i - start);
                assert(t.take(i - start) =~= piece@);
                assert(t.skip(i - start + 1) =~= s.skip(i + 1));
                let old_views = out@.map_values(|l: Vec<char>| l@);
                assert(out@.push(piece).map_values(|l: Vec<char>| l@) =~= old_views.push(piece@));
                assert(old_views.push(piece@) + split_char(s.skip(i + 1), c) =~= old_views + (seq![
                    piece@,
                ] + split_char(s.skip(i + 1), c)));
            }
            out.push(piece);
            start = i + 1;
        }
        i += 1;
    }
    let piece = slice_of(cs, start, cs.len());
    proof {
        let t = s.skip(start as int);
        lemma_split_last(t, c);
        assert(piece@ =~= t);
        let old_views = out@.map_values(|l: Vec<char>| l@);
        assert(out@.push(piece).map_values(|l: Vec<char>| l@) =~= old_views.push(piece@));
    }
    out.push(piece);
    proof {
        let v = out@.map_values(|l: Vec<char>| l@);
        assert(v.len() == out@.len());
    }
    out
}

/// `char::is_whitespace`.
pub fn is_whitespace(c: char) -> (b: bool)
    ensures
        b == is_ws(c),
{
    ('\u{9}' <= c && c <= '\u{d}') || c == ' ' || c == '\u{85}' || c == '\u{a0}' || c
        == '\u{1680}' || ('\u{2000}' <= c && c <= '\u{200a}') || c == '\u{2028}' || c
        == '\u{2029}' || c == '\u{202f}' || c == '\u{205f}' || c == '\u{3000}'
}

proof fn lemma_trim_end_take(s: Seq<char>, j: int)
    requires
        0 <= j <= s.len(),
        forall|k: int| j <= k < s.len() ==> is_ws(s[k]),
    ensures
        trim_end(s) == trim_end(s.take(j)),
    decreases s.len() - j,
{
    if j < s.len() {
        assert(s.drop_last().take(j) =~= s.take(j));
        lemma_trim_end_take(s.drop_last(), j);
    } else {
        assert(s.take(j) =~= s);
    }
}

proof fn lemma_trim_start_skip(s: Seq<char>, j: int)
    requires
        0 <= j <= s.len(),
        forall|k: int| 0 <= k < j ==> is_ws(s[k]),
    ensures
        trim_start(s) == trim_start(s.skip(j)),
    decreases j,
{
    if j > 0 {
        assert(s.drop_first().skip(j - 1) =~= s.skip(j));
        lemma_trim_start_skip(s.drop_first(), j - 1);
    } else {
        assert(s.skip(0) =~= s);
    }
}

/// `str::trim_end`.
pub fn trim_end_str(s: &str) -> (r: String)
    ensures
        r@ == trim_end(s@),
{
    let cs = chars_of(s);
    let mut j = cs.len();
    while j > 0 && is_whitespace(cs[j - 1])
        invariant
            j <= cs.len(),
            forall|k: int| j <= k < cs@.len() ==> is_ws(cs@[k]),
        decreases j,
    {
        j -= 1;
    }
    proof {
        lemma_trim_end_take(cs@, j as int);
        let t = cs@.take(j as int);
        assert(t.len() > 0 ==> t.last() == cs@[j - 1]);
    }
    let r = string_of(&cs, 0, j);
    assert(r@ =~= cs@.take(j as int));
    r
}

/// `str::trim`.
pub fn trim_str(s: &str) -> (r: String)
    ensures
        r@ == trim(s@),
{
    let cs = chars_of(s);
    let mut i: usize = 0;
    while i < cs.len() && is_whitespace(cs[i])
        invariant
            i <= cs.len(),
            forall|k: int| 0 <= k < i ==> is_ws(cs@[k]),
        decreases cs.len() - i,
    {
        i += 1;
    }
    proof {
        lemma_trim_start_skip(cs@, i as int);
        let t = cs@.skip(i as int);
        assert(t.len() > 0 ==> t[0] == cs@[i as int]);
    }
    let ghost started = cs@.skip(i as int);
    let mut j = cs.len();
    while j > i && is_whitespace(cs[j - 1])
        invariant
            i <= j <= cs.len(),
            started == cs@.skip(i as int),
            forall|k: int| j <= k < cs@.len() ==> is_ws(cs@[k]),
        decreases j,
    {
        j -= 1;
    }
    proof {
        assert forall|k: int| j - i <= k < started.len() implies is_ws(started[k]) by {
            assert(started[k] == cs@[k + i]);
        }
        lemma_trim_end_take(started, j - i);
        let t = started.take(j - i);
        assert(t.len() > 0 ==> t.last() == cs@[j - 1]);
    }
    let r = string_of(&cs, i, j);
    assert(r@ =~= started.take(j - i));
    r
}

/// Value of an ASCII digit.
fn digit_of(c: char) -> (d: u64)
    requires
        is_digit(c),
    ensures
        d == digit_value(c),
        d <= 9,
{
    (c as u32 - '0' as u32) as u64
}

/// `s.parse::<u32>()` on characters.
pub fn parse_u32_chars(cs: &Vec<char>) -> (r: Option<u32>)
    ensures
        r == parse_u32(cs@),
{
    let start: usize = if cs.len() > 0 && cs[0] == '+' {
        1
    } else {
        0
    };
    let ghost body = unsigned_body(cs@);
    assert(body =~= cs@.skip(start as int));
    if start >= cs.len() {
        return None;
    }
    let mut v: u64 = 0;
    let mut overflow = false;
    let mut i = start;
    while i < cs.len()
        invariant
            start <= i <= cs.len(),
            body == cs@.skip(start as int),
            body == unsigned_body(cs@),
            forall|k: int| start <= k < i ==> is_digit(cs@[k]),
            !overflow ==> v == digits_value(cs@.subrange(start as int, i as int)),
            !overflow ==> v <= u32::MAX,
            overflow ==> digits_value(cs@.subrange(start as int, i as int)) > u32::MAX,
        decreases cs.len() - i,
    {
        let c = cs[i];
        if !('0' <= c && c <= '9') {
            let ghost k: int = i - start;
            assert(body[k] == cs@[i as int]);
            assert(0 <= k < body.len() && !is_digit(body[k]));
            return None;
        }
        let d = digit_of(c);
        let ghost prev = cs@.subrange(start as int, i as int);
        let ghost next = cs@.subrange(start as int, i + 1);
        assert(next.drop_last() =~= prev);
        assert(digits_value(next) == digits_value(prev) * 10 + d);
        if !overflow {
            let nv = v * 10 + d;
            if nv > 0xffff_ffff {
                overflow = true;
            } else {
                v = nv;
            }
        } else {
            assert(digits_value(prev) * 10 + d >= digits_value(prev)) by (nonlinear_arith)
                requires
                    d >= 0,
                    digits_value(prev) >= 0,
            ;
        }
        i += 1;
    }
    assert(cs@.subrange(start as int, cs@.len() as int) =~= body);
    if overflow {
        None
    } else {
        Some(v as u32)
    }
}

fn digit_to_char(d: u32) -> (c: char)
    requires
        d < 10,
    ensures
        c == digit_char(d as nat),
{
    if d == 0 {
        '0'
    } else if d == 1 {
        '1'
    } else if d == 2 {
        '2'
    } else if d == 3 {
        '3'
    } else if d == 4 {
        '4'
    } else if d == 5 {
        '5'
    } else if d == 6 {
        '6'
    } else if d == 7 {
        '7'
    } else if d == 8 {
        '8'
    } else {
        '9'
    }
}

/// Appends the decimal form of `n`.
pub fn push_decimal(s: &mut String, n: u32)
    ensures
        final(s)@ == old(s)@ + decimal(n as nat),
    decreases n,
{
    if n >= 10 {
        push_decimal(s, n / 10);
        push_char(s, digit_to_char(n % 10));
        assert(old(s)@ + decimal(n as nat) =~= (old(s)@ + decimal((n / 10) as nat)).push(
            digit_char((n % 10) as nat),
        ));
    } else {
        push_char(s, digit_to_char(n));
        assert(old(s)@ + decimal(n as nat) =~= old(s)@.push(digit_char(n as nat)));
    }
}

/// The pieces joined with `sep`; `[&str]::join`.
pub fn join_strings(parts: &Vec<String>, sep: &str) -> (r: String)
    ensures
        r@ == join(views(parts@), sep@),
{
    let mut r = String::new();
    let mut i: usize = 0;
    while i < parts.len()
        invariant
            i <= parts.len(),
            r@ == join(views(parts@.take(i as int)), sep@),
        decreases parts.len() - i,
    {
        let ghost before = views(parts@.take(i as int));
        let ghost after = views(parts@.take(i + 1));
        assert(after.drop_last() =~= before);
        assert(after.last() == parts@[i as int]@);
        if i > 0 {
            r.append(sep);
        } else {
            assert(after =~= seq![parts@[0]@]);
        }
        r.append(parts[i].as_str());
        i += 1;
    }
    assert(parts@.take(parts@.len() as int) =~= parts@);
    r
}

} // verus!
