//! Text as sequences of characters: searching, splitting, trimming, numbers and order.

use vstd::prelude::*;
use vstd::slice::slice_subrange;

verus! {

/// `String::push` puts one character behind what the string holds.
pub assume_specification[ String::push ](s: &mut String, c: char)
    ensures
        final(s)@ == old(s)@.push(c),
;

/// The characters of `s`, one by one.
pub fn chars_of(s: &str) -> (cs: Vec<char>)
    ensures
        cs@ == s@,
{
    let mut cs: Vec<char> = Vec::new();
    for c in it: s.chars()
        invariant
            it.seq() == s@,
            cs@ == s@.take(it.index()),
    {
        cs.push(c);
    }
    cs
}

/// The text that the characters spell.
pub fn text_of(cs: &[char]) -> (s: String)
    ensures
        s@ == cs@,
{
    let mut s = String::new();
    let mut i: usize = 0;
    while i < cs.len()
        invariant
            i <= cs@.len(),
            s@ == cs@.take(i as int),
        decreases cs@.len() - i,
    {
        s.push(cs[i]);
        i = i + 1;
    }
    s
}

/// What each of a list of slices spells.
pub open spec fn pieces(v: Seq<&[char]>) -> Seq<Seq<char>> {
    Seq::new(v.len(), |i: int| v[i]@)
}

/// What each of a list of strings spells.
pub open spec fn texts(v: Seq<String>) -> Seq<Seq<char>> {
    Seq::new(v.len(), |i: int| v[i]@)
}

/// Whether two runs of characters are the same.
pub fn same_chars(a: &[char], b: &[char]) -> (same: bool)
    ensures
        same == (a@ == b@),
{
    if a.len() != b.len() {
        return false;
    }
    let mut i: usize = 0;
    while i < a.len()
        invariant
            i <= a@.len(),
            a@.len() == b@.len(),
            a@.take(i as int) == b@.take(i as int),
        decreases a@.len() - i,
    {
        if a[i] != b[i] {
            assert(a@[i as int] != b@[i as int]);
            return false;
        }
        assert(a@.take(i + 1) =~= a@.take(i as int).push(a@[i as int]));
        assert(b@.take(i + 1) =~= b@.take(i as int).push(b@[i as int]));
        i = i + 1;
    }
    assert(a@.take(i as int) =~= a@);
    assert(b@.take(i as int) =~= b@);
    true
}

/// Whether two texts are the same.
pub fn same(a: &str, b: &str) -> (same: bool)
    ensures
        same == (a@ == b@),
{
    let x = chars_of(a);
    let y = chars_of(b);
    same_chars(x.as_slice(), y.as_slice())
}

/// Whether the characters spell `word`.
pub fn spells(cs: &[char], word: &str) -> (is: bool)
    ensures
        is == (cs@ == word@),
{
    let w = chars_of(word);
    same_chars(cs, w.as_slice())
}

/// Whether one of the strings is `wanted`.
pub fn listed(v: &Vec<String>, wanted: &str) -> (found: bool)
    ensures
        found == texts(v@).contains(wanted@),
{
    let mut i: usize = 0;
    while i < v.len()
        invariant
            i <= v@.len(),
            forall|j: int| 0 <= j < i ==> texts(v@)[j] != wanted@,
        decreases v@.len() - i,
    {
        if same(v[i].as_str(), wanted) {
            assert(texts(v@)[i as int] == wanted@);
            return true;
        }
        i = i + 1;
    }
    false
}

/// A copy of an optional string.
pub fn copied(o: &Option<String>) -> (c: Option<String>)
    ensures
        c == *o,
{
    match o {
        Some(s) => Some(s.clone()),
        None => None,
    }
}

/// A copy of a list of strings.
pub fn copies(v: &Vec<String>) -> (c: Vec<String>)
    ensures
        c@ == v@,
{
    let mut c: Vec<String> = Vec::new();
    let mut i: usize = 0;
    while i < v.len()
        invariant
            i <= v@.len(),
            c@ == v@.take(i as int),
        decreases v@.len() - i,
    {
        c.push(v[i].clone());
        i = i + 1;
    }
    c
}

// ---------------------------------------------------------------- searching

/// The place of the first `c`, or the length where there is none.
pub open spec fn find(s: Seq<char>, c: char) -> int
    decreases s.len(),
{
    if s.len() == 0 {
        0
    } else if s[0] == c {
        0
    } else {
        1 + find(s.skip(1), c)
    }
}

/// `find` gives a place within the text, and the text holds `c` there unless it is the end.
pub proof fn lemma_find(s: Seq<char>, c: char)
    ensures
        0 <= find(s, c) <= s.len(),
        find(s, c) < s.len() ==> s[find(s, c)] == c,
        forall|j: int| 0 <= j < find(s, c) ==> s[j] != c,
    decreases s.len(),
{
    if s.len() > 0 && s[0] != c {
        lemma_find(s.skip(1), c);
        assert forall|j: int| 0 <= j < find(s, c) implies s[j] != c by {
            if j > 0 {
                assert(s.skip(1)[j - 1] == s[j]);
            }
        }
    }
}

/// A place that holds `c`, with none before it, is what `find` gives.
pub proof fn lemma_find_is(s: Seq<char>, c: char, at: int)
    requires
        0 <= at <= s.len(),
        at < s.len() ==> s[at] == c,
        forall|j: int| 0 <= j < at ==> s[j] != c,
    ensures
        find(s, c) == at,
{
    lemma_find(s, c);
    if find(s, c) < at {
        assert(s[find(s, c)] == c);
    }
}

pub fn find_char(s: &[char], c: char) -> (at: usize)
    ensures
        at == find(s@, c),
        at <= s@.len(),
{
    let mut i: usize = 0;
    while i < s.len() && s[i] != c
        invariant
            i <= s@.len(),
            forall|j: int| 0 <= j < i ==> s@[j] != c,
        decreases s@.len() - i,
    {
        i = i + 1;
    }
    proof {
        lemma_find_is(s@, c, i as int);
    }
    i
}

/// Whether `pattern` stands in `s` from place `at` on.
pub open spec fn occurs_at(s: Seq<char>, pattern: Seq<char>, at: int) -> bool {
    0 <= at && at + pattern.len() <= s.len() && s.subrange(at, at + pattern.len()) == pattern
}

/// Whether `pattern` stands anywhere in `s`.
pub open spec fn contains(s: Seq<char>, pattern: Seq<char>) -> bool {
    exists|at: int| occurs_at(s, pattern, at)
}

/// The first place from `from` on where `pattern` stands.
pub open spec fn find_text_from(s: Seq<char>, pattern: Seq<char>, from: int) -> Option<int>
    decreases s.len() + 1 - from,
{
    if from < 0 || from + pattern.len() > s.len() {
        None
    } else if occurs_at(s, pattern, from) {
        Some(from)
    } else {
        find_text_from(s, pattern, from + 1)
    }
}

/// The first place where `pattern` stands.
pub open spec fn find_text(s: Seq<char>, pattern: Seq<char>) -> Option<int> {
    find_text_from(s, pattern, 0)
}

pub proof fn lemma_find_text_from(s: Seq<char>, pattern: Seq<char>, from: int)
    requires
        0 <= from,
    ensures
        find_text_from(s, pattern, from) matches Some(at) ==> from <= at && occurs_at(
            s,
            pattern,
            at,
        ),
        find_text_from(s, pattern, from) is None ==> forall|at: int|
            from <= at ==> !occurs_at(s, pattern, at),
    decreases s.len() + 1 - from,
{
    if from + pattern.len() <= s.len() && !occurs_at(s, pattern, from) {
        lemma_find_text_from(s, pattern, from + 1);
    }
}

/// Whether `pattern` stands in `s` from place `at` on, with room for it there.
fn stands_at(s: &[char], pattern: &[char], at: usize) -> (stands: bool)
    requires
        at + pattern@.len() <= s@.len(),
    ensures
        stands == occurs_at(s@, pattern@, at as int),
{
    let end: usize = s.len() - (s.len() - at - pattern.len());
    same_chars(slice_subrange(s, at, end), pattern)
}

pub fn find_chars(s: &[char], pattern: &[char]) -> (at: Option<usize>)
    ensures
        match at {
            Some(i) => find_text(s@, pattern@) == Some(i as int) && i + pattern@.len() <= s@.len(),
            None => find_text(s@, pattern@) is None,
        },
        at is Some == contains(s@, pattern@),
{
    proof {
        lemma_find_text_from(s@, pattern@, 0);
    }
    let mut i: usize = 0;
    while i <= s.len() && pattern.len() <= s.len() - i
        invariant
            find_text_from(s@, pattern@, i as int) == find_text(s@, pattern@),
            find_text(s@, pattern@) matches Some(at) ==> occurs_at(s@, pattern@, at),
            find_text(s@, pattern@) is None ==> forall|at: int|
                0 <= at ==> !occurs_at(s@, pattern@, at),
        decreases s@.len() + 1 - i,
    {
        if stands_at(s, pattern, i) {
            assert(occurs_at(s@, pattern@, i as int));
            return Some(i);
        }
        assert(i < s@.len()) by {
            if i == s@.len() {
                assert(s@.subrange(i as int, i as int) =~= pattern@);
            }
        }
        i = i + 1;
    }
    None
}

/// Whether `pattern` stands anywhere in `s`.
pub fn holds(s: &str, pattern: &str) -> (held: bool)
    ensures
        held == contains(s@, pattern@),
{
    let x = chars_of(s);
    let y = chars_of(pattern);
    match find_chars(x.as_slice(), y.as_slice()) {
        Some(_) => true,
        None => false,
    }
}

/// What follows `prefix`, where `s` starts with it.
pub open spec fn strip_prefix(s: Seq<char>, prefix: Seq<char>) -> Option<Seq<char>> {
    if prefix.is_prefix_of(s) {
        Some(s.skip(prefix.len() as int))
    } else {
        None
    }
}

pub fn after_prefix<'a>(s: &'a [char], prefix: &str) -> (rest: Option<&'a [char]>)
    ensures
        match rest {
            Some(r) => strip_prefix(s@, prefix@) == Some(r@),
            None => strip_prefix(s@, prefix@) is None,
        },
{
    let p = chars_of(prefix);
    if p.len() > s.len() {
        return None;
    }
    if same_chars(slice_subrange(s, 0, p.len()), p.as_slice()) {
        let rest = slice_subrange(s, p.len(), s.len());
        assert(rest@ =~= s@.skip(p@.len() as int));
        Some(rest)
    } else {
        None
    }
}

/// Whether `s` starts with `prefix`.
pub fn starts(s: &[char], prefix: &str) -> (does: bool)
    ensures
        does == prefix@.is_prefix_of(s@),
{
    match after_prefix(s, prefix) {
        Some(_) => true,
        None => false,
    }
}

/// What stands before `suffix`, where `s` ends with it.
pub open spec fn strip_suffix(s: Seq<char>, suffix: Seq<char>) -> Option<Seq<char>> {
    if suffix.is_suffix_of(s) {
        Some(s.take(s.len() - suffix.len()))
    } else {
        None
    }
}

pub fn before_suffix<'a>(s: &'a [char], suffix: &str) -> (rest: Option<&'a [char]>)
    ensures
        match rest {
            Some(r) => strip_suffix(s@, suffix@) == Some(r@),
            None => strip_suffix(s@, suffix@) is None,
        },
{
    let p = chars_of(suffix);
    if p.len() > s.len() {
        return None;
    }
    let at = s.len() - p.len();
    if same_chars(slice_subrange(s, at, s.len()), p.as_slice()) {
        let rest = slice_subrange(s, 0, at);
        assert(rest@ =~= s@.take(at as int));
        Some(rest)
    } else {
        None
    }
}

// ---------------------------------------------------------------- splitting

/// The lines of `s`: what stands between line feeds, each without the carriage return that
/// stands directly before its line feed. A line feed at the very end opens no further line.
pub open spec fn lines(s: Seq<char>) -> Seq<Seq<char>>
    decreases s.len(),
{
    let at = find(s, '\n');
    if s.len() == 0 {
        seq![]
    } else if at < 0 || at >= s.len() {
        seq![s]
    } else {
        seq![without_return(s.take(at))] + lines(s.skip(at + 1))
    }
}

/// A line without the carriage return at its end.
pub open spec fn without_return(line: Seq<char>) -> Seq<char> {
    if line.len() > 0 && line.last() == '\r' {
        line.drop_last()
    } else {
        line
    }
}

pub fn lines_of<'a>(s: &'a [char]) -> (out: Vec<&'a [char]>)
    ensures
        pieces(out@) == lines(s@),
{
    let mut out: Vec<&'a [char]> = Vec::new();
    let mut rest: &'a [char] = s;
    assert(pieces(out@) + lines(rest@) =~= lines(s@));
    while rest.len() > 0
        invariant
            pieces(out@) + lines(rest@) == lines(s@),
        decreases rest@.len(),
    {
        let at = find_char(rest, '\n');
        let ghost before = pieces(out@);
        let ghost was = rest@;
        if at == rest.len() {
            out.push(rest);
            assert(pieces(out@) =~= before.push(was));
            assert(lines(was) =~= seq![was]);
            rest = slice_subrange(rest, at, rest.len());
            assert(lines(rest@) =~= seq![]);
            assert(pieces(out@) + lines(rest@) =~= before + lines(was));
        } else {
            let end = if at > 0 && rest[at - 1] == '\r' {
                at - 1
            } else {
                at
            };
            let line = slice_subrange(rest, 0, end);
            assert(line@ =~= without_return(was.take(at as int)));
            out.push(line);
            assert(pieces(out@) =~= before.push(line@));
            rest = slice_subrange(rest, at + 1, rest.len());
            assert(rest@ =~= was.skip(at + 1));
            assert(before.push(line@) + lines(rest@) =~= before + (seq![line@] + lines(rest@)));
        }
    }
    assert(lines(rest@) =~= seq![]);
    assert(pieces(out@) =~= pieces(out@) + lines(rest@));
    out
}

/// What stands before the first `c` and what stands behind it.
pub open spec fn split_once(s: Seq<char>, c: char) -> Option<(Seq<char>, Seq<char>)> {
    let at = find(s, c);
    if 0 <= at < s.len() {
        Some((s.take(at), s.skip(at + 1)))
    } else {
        None
    }
}

pub fn cut<'a>(s: &'a [char], c: char) -> (halves: Option<(&'a [char], &'a [char])>)
    ensures
        match halves {
            Some((a, b)) => split_once(s@, c) == Some((a@, b@)),
            None => split_once(s@, c) is None,
        },
{
    let at = find_char(s, c);
    if at == s.len() {
        None
    } else {
        let a = slice_subrange(s, 0, at);
        let b = slice_subrange(s, at + 1, s.len());
        assert(a@ =~= s@.take(at as int));
        assert(b@ =~= s@.skip(at + 1));
        Some((a, b))
    }
}

/// At most `n` pieces of `s` between the characters `c`; the last one holds whatever is left.
pub open spec fn split_at_most(s: Seq<char>, c: char, n: nat) -> Seq<Seq<char>>
    decreases n,
{
    if n == 0 {
        seq![]
    } else if n == 1 {
        seq![s]
    } else {
        match split_once(s, c) {
            None => seq![s],
            Some((first, rest)) => seq![first] + split_at_most(rest, c, (n - 1) as nat),
        }
    }
}

pub fn split_chars<'a>(s: &'a [char], c: char, n: usize) -> (out: Vec<&'a [char]>)
    requires
        n >= 1,
    ensures
        pieces(out@) == split_at_most(s@, c, n as nat),
{
    let mut out: Vec<&'a [char]> = Vec::new();
    let mut rest: &'a [char] = s;
    let mut left: usize = n;
    assert(pieces(out@) + split_at_most(rest@, c, left as nat) =~= split_at_most(s@, c, n as nat));
    loop
        invariant
            left >= 1,
            pieces(out@) + split_at_most(rest@, c, left as nat) == split_at_most(s@, c, n as nat),
        ensures
            pieces(out@) + seq![rest@] == split_at_most(s@, c, n as nat),
        decreases left,
    {
        if left == 1 {
            break;
        }
        match cut(rest, c) {
            None => {
                break;
            },
            Some((first, more)) => {
                let ghost before = pieces(out@);
                out.push(first);
                assert(pieces(out@) =~= before.push(first@));
                left = left - 1;
                rest = more;
                assert(before.push(first@) + split_at_most(rest@, c, left as nat) =~= before + (
                seq![first@] + split_at_most(rest@, c, left as nat)));
            },
        }
    }
    let ghost before = pieces(out@);
    out.push(rest);
    assert(pieces(out@) =~= before.push(rest@));
    out
}

/// The pieces of `s` between the places where `separator` stands.
pub open spec fn split_text(s: Seq<char>, separator: Seq<char>) -> Seq<Seq<char>>
    decreases s.len(),
{
    match find_text(s, separator) {
        Some(at) => if separator.len() == 0 || at < 0 || at + separator.len() > s.len() {
            seq![s]
        } else {
            seq![s.take(at)] + split_text(s.skip(at + separator.len()), separator)
        },
        None => seq![s],
    }
}

pub fn split_by<'a>(s: &'a [char], separator: &str) -> (out: Vec<&'a [char]>)
    requires
        separator@.len() > 0,
    ensures
        pieces(out@) == split_text(s@, separator@),
{
    let pattern = chars_of(separator);
    let mut out: Vec<&'a [char]> = Vec::new();
    let mut rest: &'a [char] = s;
    assert(pieces(out@) + split_text(rest@, pattern@) =~= split_text(s@, pattern@));
    loop
        invariant
            pattern@.len() > 0,
            pieces(out@) + split_text(rest@, pattern@) == split_text(s@, pattern@),
        ensures
            pieces(out@) + seq![rest@] == split_text(s@, pattern@),
        decreases rest@.len(),
    {
        match find_chars(rest, pattern.as_slice()) {
            None => {
                break;
            },
            Some(at) => {
                let ghost before = pieces(out@);
                let ghost was = rest@;
                let first = slice_subrange(rest, 0, at);
                assert(first@ =~= was.take(at as int));
                out.push(first);
                assert(pieces(out@) =~= before.push(first@));
                let end: usize = rest.len() - (rest.len() - at - pattern.len());
                rest = slice_subrange(rest, end, rest.len());
                assert(rest@ =~= was.skip(at + pattern@.len()));
                assert(before.push(first@) + split_text(rest@, pattern@) =~= before + (seq![first@]
                    + split_text(rest@, pattern@)));
            },
        }
    }
    let ghost before = pieces(out@);
    out.push(rest);
    assert(pieces(out@) =~= before.push(rest@));
    out
}

/// The texts one behind the other, with `separator` between each two.
pub open spec fn join(parts: Seq<Seq<char>>, separator: Seq<char>) -> Seq<char>
    decreases parts.len(),
{
    if parts.len() == 0 {
        seq![]
    } else if parts.len() == 1 {
        parts[0]
    } else {
        join(parts.drop_last(), separator) + separator + parts.last()
    }
}

pub fn joined(parts: &Vec<String>, separator: &str) -> (out: String)
    ensures
        out@ == join(texts(parts@), separator@),
{
    let mut out = String::new();
    let mut i: usize = 0;
    while i < parts.len()
        invariant
            i <= parts@.len(),
            out@ == join(texts(parts@).take(i as int), separator@),
        decreases parts@.len() - i,
    {
        proof {
            let all = texts(parts@);
            assert(all.take(i + 1).drop_last() =~= all.take(i as int));
            assert(all.take(i + 1).last() == parts@[i as int]@);
        }
        if i > 0 {
            out.append(separator);
        }
        out.append(parts[i].as_str());
        i = i + 1;
    }
    assert(texts(parts@).take(i as int) =~= texts(parts@));
    out
}

// ---------------------------------------------------------------- trimming

/// Whether a character is white space, as Unicode's `White_Space` property has it.
pub open spec fn is_white(c: char) -> bool {
    let n = c as int;
    ||| 0x09 <= n <= 0x0d
    ||| n == 0x20
    ||| n == 0x85
    ||| n == 0xa0
    ||| n == 0x1680
    ||| 0x2000 <= n <= 0x200a
    ||| n == 0x2028
    ||| n == 0x2029
    ||| n == 0x202f
    ||| n == 0x205f
    ||| n == 0x3000
}

fn white(c: char) -> (is: bool)
    ensures
        is == is_white(c),
{
    let n = c as u32;
    (0x09 <= n && n <= 0x0d) || n == 0x20 || n == 0x85 || n == 0xa0 || n == 0x1680 || (0x2000 <= n
        && n <= 0x200a) || n == 0x2028 || n == 0x2029 || n == 0x202f || n == 0x205f || n == 0x3000
}

/// `s` without the characters at its front that `drop` names.
pub open spec fn trim_front(s: Seq<char>, drop: spec_fn(char) -> bool) -> Seq<char>
    decreases s.len(),
{
    if s.len() > 0 && drop(s[0]) {
        trim_front(s.skip(1), drop)
    } else {
        s
    }
}

/// `s` without the characters at its end that `drop` names.
pub open spec fn trim_back(s: Seq<char>, drop: spec_fn(char) -> bool) -> Seq<char>
    decreases s.len(),
{
    if s.len() > 0 && drop(s.last()) {
        trim_back(s.drop_last(), drop)
    } else {
        s
    }
}

/// `s` without the white space at its two ends.
pub open spec fn trim(s: Seq<char>) -> Seq<char> {
    trim_back(trim_front(s, |c: char| is_white(c)), |c: char| is_white(c))
}

pub fn trimmed<'a>(s: &'a [char]) -> (out: &'a [char])
    ensures
        out@ == trim(s@),
{
    let ghost drop = |c: char| is_white(c);
    let mut front: &'a [char] = s;
    while front.len() > 0 && white(front[0])
        invariant
            drop == (|c: char| is_white(c)),
            trim_front(front@, drop) == trim_front(s@, drop),
        decreases front@.len(),
    {
        let ghost was = front@;
        front = slice_subrange(front, 1, front.len());
        assert(front@ =~= was.skip(1));
    }
    let mut back: &'a [char] = front;
    while back.len() > 0 && white(back[back.len() - 1])
        invariant
            drop == (|c: char| is_white(c)),
            trim_back(back@, drop) == trim_back(front@, drop),
        decreases back@.len(),
    {
        let ghost was = back@;
        back = slice_subrange(back, 0, back.len() - 1);
        assert(back@ =~= was.drop_last());
    }
    back
}

/// A copy of `s` without the white space at its two ends.
pub fn trimmed_text(s: &str) -> (out: String)
    ensures
        out@ == trim(s@),
{
    let cs = chars_of(s);
    text_of(trimmed(cs.as_slice()))
}

/// `s` without the characters `c` at its end.
pub open spec fn trim_end_char(s: Seq<char>, c: char) -> Seq<char>
    decreases s.len(),
{
    if s.len() > 0 && s.last() == c {
        trim_end_char(s.drop_last(), c)
    } else {
        s
    }
}

pub fn without_end_char<'a>(s: &'a [char], c: char) -> (out: &'a [char])
    ensures
        out@ == trim_end_char(s@, c),
{
    let mut back: &'a [char] = s;
    while back.len() > 0 && back[back.len() - 1] == c
        invariant
            trim_end_char(back@, c) == trim_end_char(s@, c),
        decreases back@.len(),
    {
        let ghost was = back@;
        back = slice_subrange(back, 0, back.len() - 1);
        assert(back@ =~= was.drop_last());
    }
    back
}

/// `s` without every `suffix` at its end.
pub open spec fn trim_end_text(s: Seq<char>, suffix: Seq<char>) -> Seq<char>
    decreases s.len(),
{
    if suffix.len() > 0 && suffix.is_suffix_of(s) {
        trim_end_text(s.take(s.len() - suffix.len()), suffix)
    } else {
        s
    }
}

pub fn without_end_text<'a>(s: &'a [char], suffix: &str) -> (out: &'a [char])
    requires
        suffix@.len() > 0,
    ensures
        out@ == trim_end_text(s@, suffix@),
{
    let mut back: &'a [char] = s;
    loop
        invariant
            suffix@.len() > 0,
            trim_end_text(back@, suffix@) == trim_end_text(s@, suffix@),
        ensures
            back@ == trim_end_text(s@, suffix@),
        decreases back@.len(),
    {
        match before_suffix(back, suffix) {
            Some(rest) => {
                back = rest;
            },
            None => {
                break;
            },
        }
    }
    back
}

/// The trimmed lines of `s` that hold more than white space.
pub open spec fn said_lines(s: Seq<Seq<char>>) -> Seq<Seq<char>>
    decreases s.len(),
{
    if s.len() == 0 {
        seq![]
    } else {
        let line = trim(s.last());
        let before = said_lines(s.drop_last());
        if line.len() == 0 {
            before
        } else {
            before.push(line)
        }
    }
}

/// `s` folded onto one line: its lines trimmed, the empty ones dropped, single spaces between.
pub open spec fn one_line(s: Seq<char>) -> Seq<char> {
    join(said_lines(lines(s)), " "@)
}

/// Folds `s` onto one line.
pub fn folded(s: &str) -> (out: String)
    ensures
        out@ == one_line(s@),
{
    let cs = chars_of(s);
    let all = lines_of(cs.as_slice());
    let mut kept: Vec<String> = Vec::new();
    let mut i: usize = 0;
    while i < all.len()
        invariant
            i <= all@.len(),
            texts(kept@) == said_lines(pieces(all@).take(i as int)),
        decreases all@.len() - i,
    {
        let line = trimmed(all[i]);
        proof {
            let every = pieces(all@);
            assert(every.take(i + 1).drop_last() =~= every.take(i as int));
            assert(every.take(i + 1).last() == all@[i as int]@);
        }
        let ghost before = texts(kept@);
        if line.len() > 0 {
            kept.push(text_of(line));
            assert(texts(kept@) =~= before.push(line@));
        }
        i = i + 1;
    }
    assert(pieces(all@).take(i as int) =~= pieces(all@));
    joined(&kept, " ")
}

/// Whether `c` stands nowhere in `s`.
pub open spec fn lacks(s: Seq<char>, c: char) -> bool {
    forall|i: int| 0 <= i < s.len() ==> #[trigger] s[i] != c
}

/// Trimming keeps what a text lacks, and leaves no white space at its end.
pub proof fn lemma_trim(s: Seq<char>, c: char)
    ensures
        lacks(s, c) ==> lacks(trim(s), c),
        trim(s).len() > 0 ==> !is_white(trim(s).last()),
{
    let drop = |c: char| is_white(c);
    lemma_trim_front(s, drop, c);
    lemma_trim_back(trim_front(s, drop), drop, c);
}

proof fn lemma_trim_front(s: Seq<char>, drop: spec_fn(char) -> bool, c: char)
    ensures
        lacks(s, c) ==> lacks(trim_front(s, drop), c),
    decreases s.len(),
{
    if s.len() > 0 && drop(s[0]) {
        lemma_trim_front(s.skip(1), drop, c);
    }
}

proof fn lemma_trim_back(s: Seq<char>, drop: spec_fn(char) -> bool, c: char)
    ensures
        lacks(s, c) ==> lacks(trim_back(s, drop), c),
        trim_back(s, drop).len() > 0 ==> !drop(trim_back(s, drop).last()),
    decreases s.len(),
{
    if s.len() > 0 && drop(s.last()) {
        lemma_trim_back(s.drop_last(), drop, c);
    }
}

/// No line holds a line feed.
pub proof fn lemma_lines_lack(s: Seq<char>)
    ensures
        forall|i: int| 0 <= i < lines(s).len() ==> lacks(#[trigger] lines(s)[i], '\n'),
    decreases s.len(),
{
    let at = find(s, '\n');
    lemma_find(s, '\n');
    if s.len() > 0 && at < s.len() {
        lemma_lines_lack(s.skip(at + 1));
        let rest = lines(s.skip(at + 1));
        assert forall|i: int| 0 <= i < lines(s).len() implies lacks(
            #[trigger] lines(s)[i],
            '\n',
        ) by {
            if i > 0 {
                assert(lines(s)[i] == rest[i - 1]);
            }
        }
    }
}

/// A text without a line feed, with one behind it, is one line.
pub proof fn lemma_one_line_reads_back(s: Seq<char>)
    requires
        lacks(s, '\n'),
        s.len() > 0,
        s.last() != '\r',
    ensures
        lines(s.push('\n')) == seq![s],
{
    let whole = s.push('\n');
    lemma_find_is(whole, '\n', s.len() as int);
    assert(whole.take(s.len() as int) =~= s);
    assert(whole.skip((s.len() + 1) as int) =~= seq![]);
    assert(lines(seq![]) =~= seq![]);
    assert(lines(whole) =~= seq![s]);
}

/// Folding a text leaves no line feed in it, and no white space at its end.
pub proof fn law_folded_is_one_line(s: Seq<char>)
    ensures
        lacks(one_line(s), '\n'),
        one_line(s).len() > 0 ==> !is_white(one_line(s).last()),
{
    lemma_lines_lack(s);
    lemma_said_lines(lines(s));
    lemma_join_lacks(said_lines(lines(s)), " "@, '\n');
}

proof fn lemma_said_lines(all: Seq<Seq<char>>)
    requires
        forall|i: int| 0 <= i < all.len() ==> lacks(#[trigger] all[i], '\n'),
    ensures
        forall|i: int|
            0 <= i < said_lines(all).len() ==> lacks(#[trigger] said_lines(all)[i], '\n')
                && said_lines(all)[i].len() > 0 && !is_white(said_lines(all)[i].last()),
    decreases all.len(),
{
    if all.len() > 0 {
        lemma_said_lines(all.drop_last());
        assert(lacks(all[all.len() - 1], '\n'));
        lemma_trim(all.last(), '\n');
        let earlier = said_lines(all.drop_last());
        assert forall|i: int| 0 <= i < said_lines(all).len() implies lacks(
            #[trigger] said_lines(all)[i],
            '\n',
        ) && said_lines(all)[i].len() > 0 && !is_white(said_lines(all)[i].last()) by {
            if i < earlier.len() {
                assert(said_lines(all)[i] == earlier[i]);
            }
        }
    }
}

proof fn lemma_join_lacks(parts: Seq<Seq<char>>, separator: Seq<char>, c: char)
    requires
        separator == " "@,
        c == '\n',
        forall|i: int|
            0 <= i < parts.len() ==> lacks(#[trigger] parts[i], c) && parts[i].len() > 0
                && !is_white(parts[i].last()),
    ensures
        lacks(join(parts, separator), c),
        parts.len() > 0 ==> join(parts, separator).len() > 0 && join(parts, separator).last()
            == parts.last().last(),
    decreases parts.len(),
{
    reveal_strlit(" ");
    if parts.len() > 1 {
        lemma_join_lacks(parts.drop_last(), separator, c);
        assert(lacks(parts[parts.len() - 1], c));
    }
}

// ---------------------------------------------------------------- numbers

/// Whether a character is a decimal digit.
pub open spec fn is_digit(c: char) -> bool {
    '0' <= c && c <= '9'
}

/// Whether every character is a decimal digit.
pub open spec fn all_digits(s: Seq<char>) -> bool {
    forall|i: int| 0 <= i < s.len() ==> is_digit(#[trigger] s[i])
}

/// The number that a row of digits writes in base ten.
pub open spec fn value(s: Seq<char>) -> nat
    decreases s.len(),
{
    if s.len() == 0 {
        0
    } else {
        value(s.drop_last()) * 10 + (s.last() as int - '0' as int) as nat
    }
}

/// The number that `s` writes: digits, with an optional plus sign before them, up to `most`.
pub open spec fn number(s: Seq<char>, most: nat) -> Option<nat> {
    let digits = if s.len() > 0 && s[0] == '+' {
        s.skip(1)
    } else {
        s
    };
    if digits.len() > 0 && all_digits(digits) && value(digits) <= most {
        Some(value(digits))
    } else {
        None
    }
}

/// The number that `s` writes, where a minus sign may stand before its digits too.
pub open spec fn signed_number(s: Seq<char>) -> Option<int> {
    if s.len() > 0 && s[0] == '-' {
        let digits = s.skip(1);
        if digits.len() > 0 && all_digits(digits) && value(digits) <= 0x8000_0000_0000_0000 {
            Some(-(value(digits) as int))
        } else {
            None
        }
    } else {
        match number(s, 0x7fff_ffff_ffff_ffff) {
            Some(n) => Some(n as int),
            None => None,
        }
    }
}

/// A longer row of digits never writes a smaller number.
pub proof fn lemma_value_grows(s: Seq<char>, i: int)
    requires
        0 <= i <= s.len(),
        all_digits(s),
    ensures
        value(s.take(i)) <= value(s),
    decreases s.len(),
{
    if i == s.len() {
        assert(s.take(i) =~= s);
    } else {
        assert(s.drop_last().take(i) =~= s.take(i));
        assert(is_digit(s[s.len() - 1]));
        lemma_value_grows(s.drop_last(), i);
    }
}

/// The value of a row of digits, where it is at most `most`.
fn digits_value(s: &[char], most: u64) -> (n: Option<u64>)
    ensures
        match n {
            Some(v) => s@.len() > 0 && all_digits(s@) && v == value(s@) && v <= most,
            None => !(s@.len() > 0 && all_digits(s@) && value(s@) <= most),
        },
{
    if s.len() == 0 {
        return None;
    }
    let mut n: u64 = 0;
    let mut i: usize = 0;
    while i < s.len()
        invariant
            i <= s@.len(),
            s@.len() > 0,
            n <= most,
            n == value(s@.take(i as int)),
            forall|j: int| 0 <= j < i ==> is_digit(#[trigger] s@[j]),
        decreases s@.len() - i,
    {
        let c = s[i];
        if !('0' <= c && c <= '9') {
            assert(!is_digit(s@[i as int]));
            return None;
        }
        let d: u64 = (c as u32 - '0' as u32) as u64;
        proof {
            let now = s@.take(i + 1);
            assert(now.drop_last() =~= s@.take(i as int));
            assert(now.last() == c);
            if all_digits(s@) {
                lemma_value_grows(s@, i + 1);
            }
        }
        if d > most || n > most / 10 || n * 10 > most - d {
            return None;
        }
        n = n * 10 + d;
        i = i + 1;
    }
    assert(s@.take(i as int) =~= s@);
    Some(n)
}

/// Reads a number as `number` has it.
pub fn read_number(s: &[char], most: u64) -> (n: Option<u64>)
    ensures
        match n {
            Some(v) => number(s@, most as nat) == Some(v as nat),
            None => number(s@, most as nat) is None,
        },
{
    if s.len() > 0 && s[0] == '+' {
        let digits = slice_subrange(s, 1, s.len());
        assert(digits@ =~= s@.skip(1));
        digits_value(digits, most)
    } else {
        digits_value(s, most)
    }
}

/// Reads a number as `signed_number` has it.
pub fn read_signed(s: &[char]) -> (n: Option<i64>)
    ensures
        match n {
            Some(v) => signed_number(s@) == Some(v as int),
            None => signed_number(s@) is None,
        },
{
    if s.len() > 0 && s[0] == '-' {
        let digits = slice_subrange(s, 1, s.len());
        assert(digits@ =~= s@.skip(1));
        match digits_value(digits, 0x8000_0000_0000_0000) {
            Some(v) => if v == 0x8000_0000_0000_0000 {
                Some(i64::MIN)
            } else {
                Some(-(v as i64))
            },
            None => None,
        }
    } else {
        match read_number(s, 0x7fff_ffff_ffff_ffff) {
            Some(v) => Some(v as i64),
            None => None,
        }
    }
}

/// The digit that writes a number below ten.
pub open spec fn digit(n: nat) -> char {
    ('0' as int + n) as char
}

/// The decimal digits of a number, without leading zeros.
pub open spec fn decimal(n: nat) -> Seq<char>
    decreases n,
{
    if n < 10 {
        seq![digit(n)]
    } else {
        decimal(n / 10).push(digit(n % 10))
    }
}

fn digit_char(n: u128) -> (c: char)
    requires
        n < 10,
    ensures
        c == digit(n as nat),
{
    match n {
        0 => '0',
        1 => '1',
        2 => '2',
        3 => '3',
        4 => '4',
        5 => '5',
        6 => '6',
        7 => '7',
        8 => '8',
        _ => '9',
    }
}

/// Puts the decimal digits of `n` behind `out`.
pub fn push_decimal(out: &mut String, n: u128)
    ensures
        final(out)@ == old(out)@ + decimal(n as nat),
    decreases n,
{
    if n < 10 {
        out.push(digit_char(n));
    } else {
        push_decimal(out, n / 10);
        out.push(digit_char(n % 10));
    }
}

/// The decimal digits of `n`.
pub fn decimal_text(n: u64) -> (out: String)
    ensures
        out@ == decimal(n as nat),
{
    wide_decimal_text(n as u128)
}

/// The decimal digits of `n`.
pub fn wide_decimal_text(n: u128) -> (out: String)
    ensures
        out@ == decimal(n as nat),
{
    let mut out = String::new();
    push_decimal(&mut out, n);
    out
}

/// Reading the decimal digits of a number gives the number back.
pub proof fn lemma_decimal_reads_back(n: nat, most: nat)
    requires
        n <= most,
    ensures
        number(decimal(n), most) == Some(n),
{
    lemma_decimal(n);
    assert(is_digit(decimal(n)[0]));
}

/// The decimal digits of a number are digits, at least one of them, and write it.
pub proof fn lemma_decimal(n: nat)
    ensures
        decimal(n).len() > 0,
        all_digits(decimal(n)),
        value(decimal(n)) == n,
    decreases n,
{
    if n < 10 {
        assert(decimal(n).drop_last() =~= seq![]);
        assert(value(seq![]) == 0);
    } else {
        lemma_decimal(n / 10);
        assert(decimal(n).drop_last() =~= decimal(n / 10));
    }
}

// ---------------------------------------------------------------- order

/// Whether `a` comes before `b` in the order of their code points.
pub open spec fn before(a: Seq<char>, b: Seq<char>) -> bool
    decreases a.len(),
{
    if b.len() == 0 {
        false
    } else if a.len() == 0 {
        true
    } else if a[0] != b[0] {
        a[0] < b[0]
    } else {
        before(a.skip(1), b.skip(1))
    }
}

/// Of two different texts one comes before the other, and no text comes before itself.
pub proof fn lemma_before_total(a: Seq<char>, b: Seq<char>)
    ensures
        before(a, b) || before(b, a) || a == b,
        !(before(a, b) && before(b, a)),
        !before(a, a),
    decreases a.len(),
{
    if a.len() > 0 {
        lemma_before_total(a.skip(1), a.skip(1));
        if b.len() > 0 {
            lemma_before_total(a.skip(1), b.skip(1));
            if a[0] == b[0] && a.skip(1) == b.skip(1) {
                assert(a =~= seq![a[0]] + a.skip(1));
                assert(b =~= seq![b[0]] + b.skip(1));
            }
        }
    } else if b.len() == 0 {
        assert(a =~= b);
    }
}

/// What comes before a text that comes before a third comes before the third.
pub proof fn lemma_before_chains(a: Seq<char>, b: Seq<char>, c: Seq<char>)
    requires
        before(a, b),
        before(b, c),
    ensures
        before(a, c),
    decreases a.len(),
{
    if a.len() > 0 && b.len() > 0 && c.len() > 0 && a[0] == b[0] && b[0] == c[0] {
        lemma_before_chains(a.skip(1), b.skip(1), c.skip(1));
    }
}

/// Whether `a` comes before `b`.
pub fn comes_before(a: &str, b: &str) -> (does: bool)
    ensures
        does == before(a@, b@),
{
    let x = chars_of(a);
    let y = chars_of(b);
    let mut i: usize = 0;
    assert(x@.skip(0) =~= x@);
    assert(y@.skip(0) =~= y@);
    while i < x.len() && i < y.len()
        invariant
            x@ == a@,
            y@ == b@,
            i <= x@.len(),
            i <= y@.len(),
            before(x@.skip(i as int), y@.skip(i as int)) == before(x@, y@),
        decreases x@.len() - i,
    {
        assert(x@.skip(i as int)[0] == x@[i as int]);
        assert(y@.skip(i as int)[0] == y@[i as int]);
        if x[i] != y[i] {
            let p: char = x[i];
            let q: char = y[i];
            return p < q;
        }
        assert(x@.skip(i as int).skip(1) =~= x@.skip(i + 1));
        assert(y@.skip(i as int).skip(1) =~= y@.skip(i + 1));
        i = i + 1;
    }
    i < y.len()
}

/// Whether each text comes before every text behind it.
pub open spec fn ascending(v: Seq<Seq<char>>) -> bool {
    forall|i: int, j: int| 0 <= i < j < v.len() ==> before(#[trigger] v[i], #[trigger] v[j])
}

/// Puts `new` in its place among strings in ascending order, unless it is there already.
pub fn insert_ordered(out: &mut Vec<String>, new: String)
    requires
        ascending(texts(old(out)@)),
    ensures
        ascending(texts(final(out)@)),
        forall|t: Seq<char>| #[trigger]
            texts(final(out)@).contains(t) <==> texts(old(out)@).contains(t) || t == new@,
{
    let ghost was = texts(out@);
    let mut at: usize = 0;
    while at < out.len() && comes_before(out[at].as_str(), new.as_str())
        invariant
            at <= out@.len(),
            texts(out@) == was,
            forall|j: int| 0 <= j < at ==> before(#[trigger] was[j], new@),
        decreases out@.len() - at,
    {
        assert(was[at as int] == out@[at as int]@);
        at = at + 1;
    }
    if at < out.len() && same(out[at].as_str(), new.as_str()) {
        assert(was[at as int] == new@);
        return;
    }
    proof {
        if at < was.len() {
            assert(was[at as int] == out@[at as int]@);
            lemma_before_total(was[at as int], new@);
        }
    }
    let ghost text = new@;
    out.insert(at, new);
    proof {
        assert(texts(out@) =~= was.insert(at as int, text));
        assert forall|i: int, j: int| 0 <= i < j < texts(out@).len() implies before(
            #[trigger] texts(out@)[i],
            #[trigger] texts(out@)[j],
        ) by {
            if j == at {
            } else if i == at {
                if j - 1 > at {
                    assert(before(was[at as int], was[j - 1]));
                    lemma_before_chains(text, was[at as int], was[j - 1]);
                }
            } else {
                let a = if i < at { i } else { i - 1 };
                let b = if j < at { j } else { j - 1 };
                assert(before(was[a], was[b]));
            }
        }
        assert forall|t: Seq<char>| #[trigger] texts(out@).contains(t) <==> was.contains(t) || t
            == text by {
            if was.contains(t) {
                let k = choose|k: int| 0 <= k < was.len() && was[k] == t;
                let m = if k < at { k } else { k + 1 };
                assert(texts(out@)[m] == t);
            }
            assert(texts(out@)[at as int] == text);
            if texts(out@).contains(t) {
                let k = choose|k: int| 0 <= k < texts(out@).len() && texts(out@)[k] == t;
                if k != at {
                    let m = if k < at { k } else { k - 1 };
                    assert(was[m] == t);
                }
            }
        }
    }
}

// ---------------------------------------------------------------- laws

/// Trimming takes white space off the two ends of a text and nothing else: what is left stands in
/// the text, all around it is white space, and it neither starts nor ends with any. So nothing is
/// left exactly where the text is white space throughout.
pub proof fn law_trim_takes_white_space_alone(s: Seq<char>) -> (cut: (int, int))
    ensures
        0 <= cut.0 <= cut.1 <= s.len(),
        trim(s) == s.subrange(cut.0, cut.1),
        forall|i: int| 0 <= i < s.len() && !(cut.0 <= i < cut.1) ==> is_white(#[trigger] s[i]),
        cut.0 < cut.1 ==> !is_white(s[cut.0]) && !is_white(s[cut.1 - 1]),
        trim(s).len() == 0 <==> forall|i: int| 0 <= i < s.len() ==> is_white(#[trigger] s[i]),
{
    let drop = |c: char| is_white(c);
    let a = lemma_trim_front_cuts(s, drop);
    let front = trim_front(s, drop);
    let b = lemma_trim_back_cuts(front, drop);
    assert(trim(s) =~= s.subrange(a, a + b));
    assert forall|i: int| 0 <= i < s.len() && !(a <= i < a + b) implies is_white(
        #[trigger] s[i],
    ) by {
        if i < a {
            assert(drop(s[i]));
        } else {
            assert(drop(front[i - a]));
        }
    }
    if b > 0 {
        assert(!drop(front[0]));
        assert(!drop(front[b - 1]));
        assert(!is_white(s[a]));
    }
    (a, a + b)
}

proof fn lemma_trim_front_cuts(s: Seq<char>, drop: spec_fn(char) -> bool) -> (at: int)
    ensures
        0 <= at <= s.len(),
        trim_front(s, drop) == s.skip(at),
        forall|i: int| 0 <= i < at ==> drop(#[trigger] s[i]),
        at < s.len() ==> !drop(s[at]),
    decreases s.len(),
{
    if s.len() > 0 && drop(s[0]) {
        let rest = lemma_trim_front_cuts(s.skip(1), drop);
        assert(s.skip(1).skip(rest) =~= s.skip(rest + 1));
        assert forall|i: int| 0 <= i < rest + 1 implies drop(#[trigger] s[i]) by {
            if i > 0 {
                assert(s.skip(1)[i - 1] == s[i]);
            }
        }
        rest + 1
    } else {
        assert(s.skip(0) =~= s);
        0
    }
}

proof fn lemma_trim_back_cuts(s: Seq<char>, drop: spec_fn(char) -> bool) -> (at: int)
    ensures
        0 <= at <= s.len(),
        trim_back(s, drop) == s.take(at),
        forall|i: int| at <= i < s.len() ==> drop(#[trigger] s[i]),
        at > 0 ==> !drop(s[at - 1]),
    decreases s.len(),
{
    if s.len() > 0 && drop(s.last()) {
        let rest = lemma_trim_back_cuts(s.drop_last(), drop);
        assert(s.drop_last().take(rest) =~= s.take(rest));
        assert forall|i: int| rest <= i < s.len() implies drop(#[trigger] s[i]) by {
            if i < s.len() - 1 {
                assert(s.drop_last()[i] == s[i]);
            }
        }
        rest
    } else {
        assert(s.take(s.len() as int) =~= s);
        s.len() as int
    }
}

/// The space, the tab and the ends of lines are white space; no letter, digit or mark of ASCII is.
pub proof fn law_white_space_is_what_shows_nothing(c: char)
    ensures
        c == ' ' || c == '\t' || c == '\n' || c == '\r' ==> is_white(c),
        '!' <= c && c <= '~' ==> !is_white(c),
{
}

/// A text that neither starts nor ends with white space is left as it is, whatever white space is
/// put around it.
pub proof fn law_trim_finds_what_was_padded(front: Seq<char>, s: Seq<char>, back: Seq<char>)
    requires
        forall|i: int| 0 <= i < front.len() ==> is_white(#[trigger] front[i]),
        forall|i: int| 0 <= i < back.len() ==> is_white(#[trigger] back[i]),
        s.len() > 0 ==> !is_white(s[0]) && !is_white(s.last()),
    ensures
        trim(front + s + back) == s,
{
    let whole = front + s + back;
    let (a, b) = law_trim_takes_white_space_alone(whole);
    if s.len() == 0 {
        assert forall|i: int| 0 <= i < whole.len() implies is_white(#[trigger] whole[i]) by {
            if i < front.len() {
                assert(whole[i] == front[i]);
            } else {
                assert(whole[i] == back[i - front.len()]);
            }
        }
        assert(trim(whole) =~= s);
    } else {
        let first = front.len() as int;
        let last = front.len() + s.len() - 1;
        assert(whole[first] == s[0]);
        assert(whole[last] == s.last());
        assert(!is_white(whole[first]));
        assert(a <= first && last < b);
        if a < first {
            assert(whole[a] == front[a]);
        }
        if b - 1 > last {
            assert(whole[b - 1] == back[b - 1 - front.len() - s.len()]);
        }
        assert(whole.subrange(a, b) =~= s);
    }
}

/// A text is cut at the first of a character: put together again it is the text, and what stands
/// before the cut lacks the character.
pub proof fn law_split_at_the_first(front: Seq<char>, c: char, back: Seq<char>)
    requires
        lacks(front, c),
    ensures
        split_once(front + seq![c] + back, c) == Some((front, back)),
        split_once(front, c) is None,
{
    let whole = front + seq![c] + back;
    assert forall|j: int| 0 <= j < front.len() implies whole[j] != c by {
        assert(whole[j] == front[j]);
    }
    lemma_find_is(whole, c, front.len() as int);
    assert(whole.take(front.len() as int) =~= front);
    assert(whole.skip(front.len() as int + 1) =~= back);
    lemma_find_is(front, c, front.len() as int);
}

/// The texts, each with a line feed behind it.
pub open spec fn written(all: Seq<Seq<char>>) -> Seq<char>
    decreases all.len(),
{
    if all.len() == 0 {
        seq![]
    } else {
        all[0] + seq!['\n'] + written(all.skip(1))
    }
}

/// Whether a text stands on a line of its own: it holds no line feed, and does not end in a
/// carriage return.
pub open spec fn is_line(s: Seq<char>) -> bool {
    lacks(s, '\n') && (s.len() > 0 ==> s.last() != '\r')
}

/// Lines that were written one below the other are read as they were, in their order.
pub proof fn law_written_lines_read_back(all: Seq<Seq<char>>)
    requires
        forall|i: int| 0 <= i < all.len() ==> is_line(#[trigger] all[i]),
    ensures
        lines(written(all)) == all,
    decreases all.len(),
{
    let whole = written(all);
    if all.len() > 0 {
        let rest = all.skip(1);
        assert forall|i: int| 0 <= i < rest.len() implies is_line(#[trigger] rest[i]) by {
            assert(rest[i] == all[i + 1]);
        }
        law_written_lines_read_back(rest);
        let first = all[0];
        assert(is_line(first));
        assert(whole =~= first + seq!['\n'] + written(rest));
        assert forall|j: int| 0 <= j < first.len() implies whole[j] != '\n' by {
            assert(whole[j] == first[j]);
        }
        lemma_find_is(whole, '\n', first.len() as int);
        assert(whole.take(first.len() as int) =~= first);
        assert(whole.skip(first.len() as int + 1) =~= written(rest));
        assert(lines(whole) =~= seq![first] + rest);
        assert(seq![first] + rest =~= all);
    } else {
        assert(lines(whole) =~= all);
    }
}

/// Fields that a character was put between are split as they were: all of them, where at most `n`
/// are wanted and there are as many or fewer, and none but the last holds the character.
pub proof fn law_joined_fields_split(fields: Seq<Seq<char>>, c: char, n: nat)
    requires
        1 <= fields.len() <= n,
        forall|i: int| 0 <= i < fields.len() - 1 ==> lacks(#[trigger] fields[i], c),
        fields.len() < n ==> lacks(fields.last(), c),
    ensures
        split_at_most(join(fields, seq![c]), c, n) == fields,
    decreases n,
{
    let whole = join(fields, seq![c]);
    if fields.len() == 1 {
        if n > 1 {
            law_split_at_the_first(whole, c, seq![]);
        }
        assert(split_at_most(whole, c, n) =~= fields);
    } else {
        let rest = fields.skip(1);
        lemma_join_first(fields, seq![c]);
        assert(lacks(fields[0], c));
        law_split_at_the_first(fields[0], c, join(rest, seq![c]));
        assert forall|i: int| 0 <= i < rest.len() - 1 implies lacks(#[trigger] rest[i], c) by {
            assert(rest[i] == fields[i + 1]);
        }
        assert(rest.last() == fields.last());
        law_joined_fields_split(rest, c, (n - 1) as nat);
        assert(split_at_most(whole, c, n) =~= seq![fields[0]] + rest);
        assert(seq![fields[0]] + rest =~= fields);
    }
}

proof fn lemma_join_first(parts: Seq<Seq<char>>, separator: Seq<char>)
    requires
        parts.len() >= 2,
    ensures
        join(parts, separator) == parts[0] + separator + join(parts.skip(1), separator),
    decreases parts.len(),
{
    let rest = parts.skip(1);
    if parts.len() == 2 {
        assert(parts.drop_last() =~= seq![parts[0]]);
        assert(join(parts.drop_last(), separator) == parts[0]);
        assert(rest =~= seq![parts[1]]);
        assert(join(rest, separator) == parts[1]);
    } else {
        lemma_join_first(parts.drop_last(), separator);
        assert(parts.drop_last().skip(1) =~= rest.drop_last());
        assert(rest.last() == parts.last());
        assert(join(parts, separator) =~= parts[0] + separator + (join(rest.drop_last(), separator)
            + separator + rest.last()));
    }
}

/// Texts are joined in their order, each whole, with the separator between: one alone is itself,
/// two stand on either side of it, and more are the first and then the others joined.
pub proof fn law_joined_in_order(parts: Seq<Seq<char>>, separator: Seq<char>)
    ensures
        parts.len() == 0 ==> join(parts, separator).len() == 0,
        parts.len() == 1 ==> join(parts, separator) == parts[0],
        parts.len() >= 2 ==> join(parts, separator) == parts[0] + separator + join(
            parts.skip(1),
            separator,
        ),
{
    if parts.len() >= 2 {
        lemma_join_first(parts, separator);
    }
}

/// The first place of a pattern is one where it stands, and it stands nowhere before it; where
/// there is none, it stands nowhere.
pub proof fn law_found_at_the_first(s: Seq<char>, pattern: Seq<char>)
    ensures
        match find_text(s, pattern) {
            Some(at) => 0 <= at && at + pattern.len() <= s.len() && (forall|i: int|
                0 <= i < pattern.len() ==> s[at + i] == #[trigger] pattern[i]) && (forall|before:
                int| 0 <= before < at ==> !(#[trigger] occurs_at(s, pattern, before))),
            None => forall|at: int|
                0 <= at && at + pattern.len() <= s.len() ==> (#[trigger] s.subrange(
                    at,
                    at + pattern.len(),
                )) != pattern,
        },
{
    lemma_find_text_from(s, pattern, 0);
    lemma_find_text_first(s, pattern, 0);
    match find_text(s, pattern) {
        Some(at) => {
            assert forall|i: int| 0 <= i < pattern.len() implies s[at + i] == #[trigger] pattern[i] by {
                assert(s.subrange(at, at + pattern.len())[i] == pattern[i]);
            }
        },
        None => {
            assert forall|at: int| 0 <= at && at + pattern.len() <= s.len() implies (
            #[trigger] s.subrange(at, at + pattern.len())) != pattern by {
                assert(!occurs_at(s, pattern, at));
            }
        },
    }
}

proof fn lemma_find_text_first(s: Seq<char>, pattern: Seq<char>, from: int)
    requires
        0 <= from,
    ensures
        find_text_from(s, pattern, from) matches Some(at) ==> forall|before: int|
            from <= before < at ==> !(#[trigger] occurs_at(s, pattern, before)),
    decreases s.len() + 1 - from,
{
    if from + pattern.len() <= s.len() && !occurs_at(s, pattern, from) {
        lemma_find_text_first(s, pattern, from + 1);
    }
}

/// The decimal digits of a number are read back as that number, and no two numbers have the same.
pub proof fn law_decimal_reads_back(n: nat, m: nat, most: nat)
    requires
        n <= most,
    ensures
        number(decimal(n), most) == Some(n),
        decimal(n) == decimal(m) ==> n == m,
        forall|i: int| 0 <= i < decimal(n).len() ==> '0' <= #[trigger] decimal(n)[i] <= '9',
        n > 0 ==> decimal(n)[0] != '0',
{
    lemma_decimal_reads_back(n, most);
    lemma_decimal(n);
    lemma_decimal(m);
    lemma_decimal_leads(n);
    assert forall|i: int| 0 <= i < decimal(n).len() implies '0' <= #[trigger] decimal(n)[i] <= '9' by {
        assert(is_digit(decimal(n)[i]));
    }
}

proof fn lemma_decimal_leads(n: nat)
    ensures
        decimal(n).len() > 0,
        n > 0 ==> decimal(n)[0] != '0',
    decreases n,
{
    if n >= 10 {
        lemma_decimal_leads(n / 10);
        assert(decimal(n)[0] == decimal(n / 10)[0]);
    }
}

/// Folding a text without a line feed only trims it; folding a text of two lines puts what each
/// says on one line, with a space between where both say something.
pub proof fn law_folding_keeps_what_was_said(a: Seq<char>, b: Seq<char>)
    requires
        is_line(a),
        is_line(b),
    ensures
        one_line(a) == trim(a),
        trim(a).len() > 0 && trim(b).len() > 0 ==> one_line(a + seq!['\n'] + b + seq!['\n']) == trim(
            a,
        ) + " "@ + trim(b),
{
    let all = seq![a, b];
    assert(all.skip(1) =~= seq![b]);
    assert(seq![b].skip(1) =~= seq![]);
    assert(written(seq![]) =~= seq![]);
    assert(written(seq![b]) =~= b + seq!['\n']);
    assert(written(all) =~= a + seq!['\n'] + b + seq!['\n']);
    law_written_lines_read_back(all);
    assert(all.drop_last() =~= seq![a]);
    assert(seq![a].drop_last() =~= seq![]);
    reveal_with_fuel(said_lines, 3);
    if trim(a).len() > 0 && trim(b).len() > 0 {
        assert(said_lines(all) =~= seq![trim(a), trim(b)]);
        lemma_join_first(seq![trim(a), trim(b)], " "@);
        assert(seq![trim(a), trim(b)].skip(1) =~= seq![trim(b)]);
    }
    lemma_find_is(a, '\n', a.len() as int);
    if a.len() == 0 {
        assert(lines(a) =~= seq![]);
        assert(said_lines(lines(a)) =~= seq![]);
        let (i, j) = law_trim_takes_white_space_alone(a);
        assert(one_line(a) =~= trim(a));
    } else {
        assert(lines(a) =~= seq![a]);
        if trim(a).len() == 0 {
            assert(said_lines(lines(a)) =~= seq![]);
            assert(one_line(a) =~= trim(a));
        } else {
            assert(said_lines(lines(a)) =~= seq![trim(a)]);
        }
    }
}

/// Of two texts the one comes first whose character is smaller at the first place where they
/// differ, and a text comes before every one that only goes on behind it.
pub proof fn law_order_is_by_the_first_difference(
    common: Seq<char>,
    a: char,
    b: char,
    one: Seq<char>,
    other: Seq<char>,
)
    requires
        a < b,
    ensures
        before(common + seq![a] + one, common + seq![b] + other),
        before(common, common + seq![a] + one),
        !before(common, common),
    decreases common.len(),
{
    let x = common + seq![a] + one;
    let y = common + seq![b] + other;
    if common.len() == 0 {
        assert(x[0] == a && y[0] == b);
    } else {
        let rest = common.skip(1);
        law_order_is_by_the_first_difference(rest, a, b, one, other);
        assert(x.skip(1) =~= rest + seq![a] + one);
        assert(y.skip(1) =~= rest + seq![b] + other);
        assert(x[0] == common[0] && y[0] == common[0]);
    }
}

/// A text holds a pattern exactly where it is the pattern with something before it and something
/// behind it.
pub proof fn law_pattern_is_held_anywhere(s: Seq<char>, pattern: Seq<char>)
    ensures
        contains(s, pattern) <==> exists|front: Seq<char>, back: Seq<char>|
            s == #[trigger] (front + pattern + back),
{
    if contains(s, pattern) {
        let at = choose|at: int| occurs_at(s, pattern, at);
        let front = s.take(at);
        let back = s.skip(at + pattern.len());
        assert(s.subrange(at, at + pattern.len()) == pattern);
        assert(s =~= front + pattern + back) by {
            assert forall|i: int| at <= i < at + pattern.len() implies s[i] == pattern[i - at] by {
                assert(s.subrange(at, at + pattern.len())[i - at] == s[i]);
            }
        }
    }
    if exists|front: Seq<char>, back: Seq<char>| s == #[trigger] (front + pattern + back) {
        let (front, back) = choose|front: Seq<char>, back: Seq<char>|
            s == #[trigger] (front + pattern + back);
        assert(s.subrange(front.len() as int, front.len() as int + pattern.len()) =~= pattern);
        assert(occurs_at(s, pattern, front.len() as int));
    }
}

/// A line ends before its line feed, and before one carriage return right in front of that. The
/// rest is read on from behind the line feed, and a last line without one is taken as it is.
pub proof fn law_line_ends_before_its_feed(line: Seq<char>, rest: Seq<char>)
    requires
        lacks(line, '\n'),
    ensures
        lines(line + seq!['\r', '\n'] + rest) == seq![line] + lines(rest),
        line.len() == 0 || line.last() != '\r' ==> lines(line + seq!['\n'] + rest) == seq![line]
            + lines(rest),
        line.len() > 0 ==> lines(line) == seq![line],
        lines(seq![]).len() == 0,
{
    let returned = line + seq!['\r'];
    let long = returned + seq!['\n'] + rest;
    assert(line + seq!['\r', '\n'] + rest =~= long);
    assert forall|j: int| 0 <= j < returned.len() implies long[j] != '\n' by {
        assert(long[j] == returned[j]);
        if j < line.len() {
            assert(returned[j] == line[j]);
        }
    }
    lemma_find_is(long, '\n', returned.len() as int);
    assert(long.take(returned.len() as int) =~= returned);
    assert(long.skip(returned.len() as int + 1) =~= rest);
    assert(without_return(returned) =~= line);
    let short = line + seq!['\n'] + rest;
    assert forall|j: int| 0 <= j < line.len() implies short[j] != '\n' by {
        assert(short[j] == line[j]);
    }
    lemma_find_is(short, '\n', line.len() as int);
    assert(short.take(line.len() as int) =~= line);
    assert(short.skip(line.len() as int + 1) =~= rest);
    if line.len() > 0 {
        lemma_find_is(line, '\n', line.len() as int);
        assert(lines(line) =~= seq![line]);
    }
}

/// Every one of the characters at the end of a text is cut off, and nothing before them.
pub proof fn law_only_the_end_is_cut_off(front: Seq<char>, c: char, n: nat)
    requires
        front.len() == 0 || front.last() != c,
    ensures
        trim_end_char(front + Seq::new(n, |i: int| c), c) == front,
    decreases n,
{
    let end = Seq::new(n, |i: int| c);
    let whole = front + end;
    if n == 0 {
        assert(whole =~= front);
    } else {
        law_only_the_end_is_cut_off(front, c, (n - 1) as nat);
        assert(whole.last() == c);
        assert(whole.drop_last() =~= front + Seq::new((n - 1) as nat, |i: int| c));
    }
}

/// Each time that a text ends in what is to be cut off, that is cut off once more; a text that does
/// not end in it stays as it is.
pub proof fn law_each_ending_is_cut_off(front: Seq<char>, suffix: Seq<char>)
    requires
        suffix.len() > 0,
    ensures
        trim_end_text(front + suffix, suffix) == trim_end_text(front, suffix),
        (forall|before: Seq<char>| front != #[trigger] (before + suffix)) ==> trim_end_text(
            front,
            suffix,
        ) == front,
{
    let whole = front + suffix;
    assert(whole.subrange(whole.len() - suffix.len(), whole.len() as int) =~= suffix);
    assert(suffix.is_suffix_of(whole));
    assert(whole.take(whole.len() - suffix.len()) =~= front);
    if suffix.is_suffix_of(front) {
        let before = front.take(front.len() - suffix.len());
        let end = front.subrange(front.len() - suffix.len(), front.len() as int);
        assert(end == suffix);
        assert(front =~= before + end);
    }
}

/// A number is written in digits alone, with one sign before them at most, and in at least one. A
/// signed one is no less than the least that fits and no more than the most.
pub proof fn law_number_is_digits_behind_a_sign(s: Seq<char>, most: nat)
    ensures
        number(s, most) matches Some(n) ==> n <= most && s.len() > 0 && is_digit(s.last())
            && forall|i: int| 0 <= i < s.len() ==> is_digit(#[trigger] s[i]) || (i == 0 && s[i]
            == '+'),
        signed_number(s) matches Some(n) ==> -0x8000_0000_0000_0000 <= n <= 0x7fff_ffff_ffff_ffff
            && s.len() > 0 && is_digit(s.last()) && forall|i: int|
            0 <= i < s.len() ==> is_digit(#[trigger] s[i]) || (i == 0 && (s[i] == '+' || s[i]
                == '-')),
{
    lemma_digits_behind(s, most);
    lemma_digits_behind(s, 0x7fff_ffff_ffff_ffff);
    if s.len() > 0 && s[0] == '-' {
        let digits = s.skip(1);
        if digits.len() > 0 && all_digits(digits) {
            assert(digits.last() == s.last());
            assert(is_digit(digits[digits.len() - 1]));
            assert forall|i: int| 0 <= i < s.len() implies is_digit(#[trigger] s[i]) || i == 0 by {
                if i > 0 {
                    assert(digits[i - 1] == s[i]);
                }
            }
        }
    }
}

proof fn lemma_digits_behind(s: Seq<char>, most: nat)
    ensures
        number(s, most) matches Some(n) ==> n <= most && s.len() > 0 && is_digit(s.last())
            && forall|i: int| 0 <= i < s.len() ==> is_digit(#[trigger] s[i]) || (i == 0 && s[i]
            == '+'),
{
    if number(s, most) is Some {
        if s.len() > 0 && s[0] == '+' {
            let digits = s.skip(1);
            assert(digits.last() == s.last());
            assert(is_digit(digits[digits.len() - 1]));
            assert forall|i: int| 0 <= i < s.len() implies is_digit(#[trigger] s[i]) || (i == 0
                && s[i] == '+') by {
                if i > 0 {
                    assert(digits[i - 1] == s[i]);
                }
            }
        } else {
            assert(is_digit(s[s.len() - 1]));
        }
    }
}

} // verus!
