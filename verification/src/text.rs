//! Character-level text model shared by the hosts-file, domain and
//! command-line logic: the view of a string is its `Seq<char>`.

use vstd::prelude::*;
use vstd::string::StringExecFns;

verus! {

/// Unicode `White_Space`, the set that `char::is_whitespace` and `str::trim` use.
pub open spec fn is_ws(c: char) -> bool {
    ||| ('\u{9}' <= c <= '\u{d}')
    ||| c == ' '
    ||| c == '\u{85}'
    ||| c == '\u{a0}'
    ||| c == '\u{1680}'
    ||| ('\u{2000}' <= c <= '\u{200a}')
    ||| c == '\u{2028}'
    ||| c == '\u{2029}'
    ||| c == '\u{202f}'
    ||| c == '\u{205f}'
    ||| c == '\u{3000}'
}

pub open spec fn is_ascii_alnum(c: char) -> bool {
    ('a' <= c <= 'z') || ('A' <= c <= 'Z') || ('0' <= c <= '9')
}

pub open spec fn is_ascii_upper(c: char) -> bool {
    'A' <= c <= 'Z'
}

/// `char::to_ascii_lowercase`.
pub open spec fn ascii_lower(c: char) -> char {
    if is_ascii_upper(c) {
        ((c as u32) + 32) as char
    } else {
        c
    }
}

pub open spec fn lower_seq(s: Seq<char>) -> Seq<char> {
    s.map_values(|c: char| ascii_lower(c))
}

/// Drops the leading characters that satisfy `p`.
pub open spec fn trim_start_while(s: Seq<char>, p: spec_fn(char) -> bool) -> Seq<char>
    decreases s.len(),
{
    if s.len() > 0 && p(s[0]) {
        trim_start_while(s.drop_first(), p)
    } else {
        s
    }
}

/// Drops the trailing characters that satisfy `p`.
pub open spec fn trim_end_while(s: Seq<char>, p: spec_fn(char) -> bool) -> Seq<char>
    decreases s.len(),
{
    if s.len() > 0 && p(s.last()) {
        trim_end_while(s.drop_last(), p)
    } else {
        s
    }
}

/// `str::trim_matches` with a character predicate.
pub open spec fn trim_both(s: Seq<char>, p: spec_fn(char) -> bool) -> Seq<char> {
    trim_end_while(trim_start_while(s, p), p)
}

/// Repeatedly removes the prefix `p` (`str::trim_start_matches` with a string pattern).
pub open spec fn strip_all_prefix(s: Seq<char>, p: Seq<char>) -> Seq<char>
    decreases s.len(),
{
    if 0 < p.len() <= s.len() && s.subrange(0, p.len() as int) == p {
        strip_all_prefix(s.subrange(p.len() as int, s.len() as int), p)
    } else {
        s
    }
}

/// Number of leading characters before the first `c` (or the whole length).
pub open spec fn len_before(s: Seq<char>, c: char) -> nat
    decreases s.len(),
{
    if s.len() == 0 || s[0] == c {
        0
    } else {
        1 + len_before(s.drop_first(), c)
    }
}

/// The text before the first `c`: the first piece of `str::split(c)`.
pub open spec fn before_char(s: Seq<char>, c: char) -> Seq<char> {
    s.subrange(0, len_before(s, c) as int)
}

pub open spec fn occurs_at(s: Seq<char>, p: Seq<char>, i: int) -> bool {
    0 <= i && i + p.len() <= s.len() && s.subrange(i, i + p.len()) == p
}

pub open spec fn contains_seq(s: Seq<char>, p: Seq<char>) -> bool {
    exists|i: int| occurs_at(s, p, i)
}

/// The first occurrence of `p` in `s` at or after `i` (`str::find`).
pub open spec fn find_from(s: Seq<char>, p: Seq<char>, i: int) -> Option<int>
    decreases s.len() + 1 - i,
{
    if i < 0 || i + p.len() > s.len() {
        None
    } else if occurs_at(s, p, i) {
        Some(i)
    } else {
        find_from(s, p, i + 1)
    }
}

pub open spec fn find(s: Seq<char>, p: Seq<char>) -> Option<int> {
    find_from(s, p, 0)
}

pub open spec fn starts_with(s: Seq<char>, p: Seq<char>) -> bool {
    p.len() <= s.len() && s.subrange(0, p.len() as int) == p
}

pub open spec fn ends_with(s: Seq<char>, p: Seq<char>) -> bool {
    p.len() <= s.len() && s.subrange(s.len() - p.len(), s.len() as int) == p
}

pub open spec fn ws_pred() -> spec_fn(char) -> bool {
    |c: char| is_ws(c)
}

/// `str::trim`.
pub open spec fn trim_ws(s: Seq<char>) -> Seq<char> {
    trim_both(s, ws_pred())
}

/// `str::trim_end`.
pub open spec fn trim_end_ws(s: Seq<char>) -> Seq<char> {
    trim_end_while(s, ws_pred())
}

/// The classes of characters that the library trims or tests.
#[derive(Clone, Copy)]
pub enum CharClass {
    Whitespace,
    /// Space, tab, CR, LF, slash and backslash.
    DomainEdge,
    Slash,
    LineBreak,
    Star,
    Dot,
    Colon,
}

pub open spec fn class_pred(k: CharClass) -> spec_fn(char) -> bool {
    match k {
        CharClass::Whitespace => ws_pred(),
        CharClass::DomainEdge => |c: char|
            c == ' ' || c == '\t' || c == '\r' || c == '\n' || c == '/' || c == '\\',
        CharClass::Slash => |c: char| c == '/',
        CharClass::LineBreak => |c: char| c == '\r' || c == '\n',
        CharClass::Star => |c: char| c == '*',
        CharClass::Dot => |c: char| c == '.',
        CharClass::Colon => |c: char| c == ':',
    }
}

pub fn is_whitespace(c: char) -> (res: bool)
    ensures
        res == is_ws(c),
{
    ('\u{9}' <= c && c <= '\u{d}') || c == ' ' || c == '\u{85}' || c == '\u{a0}' || c
        == '\u{1680}' || ('\u{2000}' <= c && c <= '\u{200a}') || c == '\u{2028}' || c
        == '\u{2029}' || c == '\u{202f}' || c == '\u{205f}' || c == '\u{3000}'
}

pub fn in_class(k: CharClass, c: char) -> (res: bool)
    ensures
        res == class_pred(k)(c),
{
    match k {
        CharClass::Whitespace => is_whitespace(c),
        CharClass::DomainEdge => c == ' ' || c == '\t' || c == '\r' || c == '\n' || c == '/'
            || c == '\\',
        CharClass::Slash => c == '/',
        CharClass::LineBreak => c == '\r' || c == '\n',
        CharClass::Star => c == '*',
        CharClass::Dot => c == '.',
        CharClass::Colon => c == ':',
    }
}

pub fn ascii_alnum(c: char) -> (res: bool)
    ensures
        res == is_ascii_alnum(c),
{
    ('a' <= c && c <= 'z') || ('A' <= c && c <= 'Z') || ('0' <= c && c <= '9')
}

/// The characters of `s`, in order.
pub fn chars_of(s: &str) -> (v: Vec<char>)
    ensures
        v@ == s@,
{
    let mut v: Vec<char> = Vec::new();
    for c in it: s.chars()
        invariant
            v@ == it.seq().take(it.index() as int),
    {
        v.push(c);
    }
    v
}

/// `String::push`: appends one character.
#[verifier::external_body]
pub fn push_char(s: &mut String, c: char)
    ensures
        final(s)@ == old(s)@.push(c),
{
    s.push(c);
}

/// A new `String` holding the characters `v[lo..hi]`.
pub fn string_from_range(v: &Vec<char>, lo: usize, hi: usize) -> (s: String)
    requires
        lo <= hi <= v.len(),
    ensures
        s@ == v@.subrange(lo as int, hi as int),
{
    let mut s = String::new();
    let mut i = lo;
    while i < hi
        invariant
            lo <= i <= hi <= v.len(),
            s@ == v@.subrange(lo as int, i as int),
        decreases hi - i,
    {
        push_char(&mut s, v[i]);
        assert(v@.subrange(lo as int, i + 1) == v@.subrange(lo as int, i as int).push(v@[i as int]));
        i += 1;
    }
    s
}

pub fn string_from_chars(v: &Vec<char>) -> (s: String)
    ensures
        s@ == v@,
{
    let s = string_from_range(v, 0, v.len());
    assert(v@.subrange(0, v@.len() as int) == v@);
    s
}

/// A `String` with the characters of a literal.
pub fn text(s: &str) -> (r: String)
    ensures
        r@ == s@,
{
    String::from_str(s)
}

/// Appends `t` to `s`.
pub fn push_text(s: &mut String, t: &str)
    ensures
        final(s)@ == old(s)@ + t@,
{
    s.append(t);
}

pub fn str_eq(a: &str, b: &str) -> (res: bool)
    ensures
        res == (a@ == b@),
{
    let x = chars_of(a);
    let y = chars_of(b);
    if x.len() != y.len() {
        return false;
    }
    let mut i: usize = 0;
    while i < x.len()
        invariant
            x@ == a@,
            y@ == b@,
            x.len() == y.len(),
            i <= x.len(),
            forall|j: int| 0 <= j < i ==> x@[j] == y@[j],
        decreases x.len() - i,
    {
        if x[i] != y[i] {
            return false;
        }
        i += 1;
    }
    assert(x@ =~= y@);
    true
}

/// The characters `v[lo..hi]` as a vector.
pub fn sub_chars(v: &Vec<char>, lo: usize, hi: usize) -> (r: Vec<char>)
    requires
        lo <= hi <= v.len(),
    ensures
        r@ == v@.subrange(lo as int, hi as int),
{
    let mut r: Vec<char> = Vec::new();
    let mut i = lo;
    while i < hi
        invariant
            lo <= i <= hi <= v.len(),
            r@ == v@.subrange(lo as int, i as int),
        decreases hi - i,
    {
        r.push(v[i]);
        assert(v@.subrange(lo as int, i + 1) == v@.subrange(lo as int, i as int).push(v@[i as int]));
        i += 1;
    }
    r
}

/// `v[lo..hi]` with ASCII letters lowered (`str::to_ascii_lowercase`).
pub fn lowered_range(v: &Vec<char>, lo: usize, hi: usize) -> (r: Vec<char>)
    requires
        lo <= hi <= v.len(),
    ensures
        r@ == lower_seq(v@.subrange(lo as int, hi as int)),
{
    let mut r: Vec<char> = Vec::new();
    let mut i = lo;
    while i < hi
        invariant
            lo <= i <= hi <= v.len(),
            r@ == lower_seq(v@.subrange(lo as int, i as int)),
        decreases hi - i,
    {
        let c = v[i];
        let l = if 'A' <= c && c <= 'Z' {
            ((c as u8) + 32) as char
        } else {
            c
        };
        assert(l == ascii_lower(c)) by {
            if 'A' <= c && c <= 'Z' {
                assert((c as u8) as u32 == c as u32);
            }
        }
        r.push(l);
        assert(lower_seq(v@.subrange(lo as int, i + 1)) =~= lower_seq(v@.subrange(lo as int, i as int)).push(l));
        i += 1;
    }
    r
}

/// Whether `p` occurs in `v` at position `i`.
pub fn occurs_at_exec(v: &Vec<char>, p: &Vec<char>, i: usize) -> (res: bool)
    ensures
        res == occurs_at(v@, p@, i as int),
{
    if p.len() > v.len() || i > v.len() - p.len() {
        return false;
    }
    let mut j: usize = 0;
    while j < p.len()
        invariant
            i + p.len() <= v.len(),
            j <= p.len(),
            forall|k: int| 0 <= k < j ==> v@[i + k] == p@[k],
        decreases p.len() - j,
    {
        if v[i + j] != p[j] {
            assert(v@.subrange(i as int, i + p.len())[j as int] != p@[j as int]);
            return false;
        }
        j += 1;
    }
    assert(v@.subrange(i as int, i + p.len()) =~= p@);
    true
}

pub proof fn lemma_find_from_none(s: Seq<char>, p: Seq<char>, i: int)
    requires
        0 <= i,
        find_from(s, p, i) is None,
    ensures
        forall|j: int| i <= j ==> !occurs_at(s, p, j),
    decreases s.len() + 1 - i,
{
    if i + p.len() <= s.len() {
        lemma_find_from_none(s, p, i + 1);
    }
}

pub proof fn lemma_find_from_some(s: Seq<char>, p: Seq<char>, i: int)
    requires
        0 <= i,
        find_from(s, p, i) is Some,
    ensures
        occurs_at(s, p, find_from(s, p, i).unwrap()),
        i <= find_from(s, p, i).unwrap(),
        forall|j: int| i <= j < find_from(s, p, i).unwrap() ==> !occurs_at(s, p, j),
    decreases s.len() + 1 - i,
{
    if !occurs_at(s, p, i) {
        lemma_find_from_some(s, p, i + 1);
    }
}

/// `find_from` is the first occurrence: an occurrence at `k` with none in `[i, k)` is what it finds.
pub proof fn lemma_find_from_first(s: Seq<char>, p: Seq<char>, i: int, k: int)
    requires
        0 <= i <= k,
        occurs_at(s, p, k),
        forall|j: int| i <= j < k ==> !occurs_at(s, p, j),
    ensures
        find_from(s, p, i) == Some(k),
    decreases k - i,
{
    if i < k {
        lemma_find_from_first(s, p, i + 1, k);
    }
}

/// No occurrence at or after `i`: nothing is found.
pub proof fn lemma_find_from_absent(s: Seq<char>, p: Seq<char>, i: int)
    requires
        0 <= i,
        forall|j: int| i <= j ==> !occurs_at(s, p, j),
    ensures
        find_from(s, p, i) is None,
    decreases s.len() + 1 - i,
{
    if i + p.len() <= s.len() {
        lemma_find_from_absent(s, p, i + 1);
    }
}

/// The first occurrence of `p` in `v` (`str::find`).
pub fn find_exec(v: &Vec<char>, p: &Vec<char>) -> (res: Option<usize>)
    ensures
        match res {
            Some(i) => find(v@, p@) == Some(i as int),
            None => find(v@, p@) is None,
        },
{
    if p.len() > v.len() {
        proof {
            lemma_find_from_absent(v@, p@, 0);
        }
        return None;
    }
    let last = v.len() - p.len();
    let mut i: usize = 0;
    loop
        invariant
            last == v.len() - p.len(),
            p.len() <= v.len(),
            i <= last,
            forall|j: int| 0 <= j < i ==> !occurs_at(v@, p@, j),
        decreases last - i,
    {
        if occurs_at_exec(v, p, i) {
            proof {
                lemma_find_from_first(v@, p@, 0, i as int);
            }
            return Some(i);
        }
        if i == last {
            proof {
                lemma_find_from_absent(v@, p@, 0);
            }
            return None;
        }
        i += 1;
    }
}

/// Whether `p` occurs anywhere in `v` (`str::contains`).
pub fn contains_exec(v: &Vec<char>, p: &Vec<char>) -> (res: bool)
    ensures
        res == contains_seq(v@, p@),
{
    match find_exec(v, p) {
        Some(i) => {
            proof {
                lemma_find_from_some(v@, p@, 0);
            }
            true
        },
        None => {
            proof {
                lemma_find_from_none(v@, p@, 0);
            }
            false
        },
    }
}

/// Skips the characters of class `k` at the front of `v[lo..hi]`.
pub fn skip_start(v: &Vec<char>, lo: usize, hi: usize, k: CharClass) -> (r: usize)
    requires
        lo <= hi <= v.len(),
    ensures
        lo <= r <= hi,
        v@.subrange(r as int, hi as int) == trim_start_while(
            v@.subrange(lo as int, hi as int),
            class_pred(k),
        ),
{
    let mut i = lo;
    while i < hi && in_class(k, v[i])
        invariant
            lo <= i <= hi <= v.len(),
            trim_start_while(v@.subrange(lo as int, hi as int), class_pred(k)) == trim_start_while(
                v@.subrange(i as int, hi as int),
                class_pred(k),
            ),
        decreases hi - i,
    {
        assert(v@.subrange(i as int, hi as int).drop_first() =~= v@.subrange(i + 1, hi as int));
        i += 1;
    }
    i
}

/// Skips the characters of class `k` at the back of `v[lo..hi]`.
pub fn skip_end(v: &Vec<char>, lo: usize, hi: usize, k: CharClass) -> (r: usize)
    requires
        lo <= hi <= v.len(),
    ensures
        lo <= r <= hi,
        v@.subrange(lo as int, r as int) == trim_end_while(
            v@.subrange(lo as int, hi as int),
            class_pred(k),
        ),
{
    let mut i = hi;
    while i > lo && in_class(k, v[i - 1])
        invariant
            lo <= i <= hi <= v.len(),
            trim_end_while(v@.subrange(lo as int, hi as int), class_pred(k)) == trim_end_while(
                v@.subrange(lo as int, i as int),
                class_pred(k),
            ),
        decreases i - lo,
    {
        assert(v@.subrange(lo as int, i as int).drop_last() =~= v@.subrange(lo as int, i - 1));
        i -= 1;
    }
    i
}

/// Repeatedly skips the prefix `p` at the front of `v[lo..hi]`.
pub fn skip_prefixes(v: &Vec<char>, lo: usize, hi: usize, p: &Vec<char>) -> (r: usize)
    requires
        lo <= hi <= v.len(),
    ensures
        lo <= r <= hi,
        v@.subrange(r as int, hi as int) == strip_all_prefix(v@.subrange(lo as int, hi as int), p@),
{
    if p.len() == 0 {
        return lo;
    }
    let mut i = lo;
    while p.len() <= hi - i && occurs_at_exec(v, p, i)
        invariant
            lo <= i <= hi <= v.len(),
            p.len() > 0,
            strip_all_prefix(v@.subrange(lo as int, hi as int), p@) == strip_all_prefix(
                v@.subrange(i as int, hi as int),
                p@,
            ),
        decreases hi - i,
    {
        assert(v@.subrange(i as int, hi as int).subrange(0, p.len() as int) =~= v@.subrange(
            i as int,
            i + p.len(),
        ));
        assert(v@.subrange(i as int, hi as int).subrange(p.len() as int, hi - i) =~= v@.subrange(
            i + p.len(),
            hi as int,
        ));
        i += p.len();
    }
    proof {
        if p.len() <= hi - i {
            assert(v@.subrange(i as int, hi as int).subrange(0, p.len() as int) =~= v@.subrange(
                i as int,
                i + p.len(),
            ));
        }
    }
    i
}

/// What `len_before` counts: no `c` before it, and `c` at it unless it is the end.
pub proof fn lemma_len_before(s: Seq<char>, c: char)
    ensures
        len_before(s, c) <= s.len(),
        forall|k: int| 0 <= k < len_before(s, c) ==> s[k] != c,
        len_before(s, c) < s.len() ==> s[len_before(s, c) as int] == c,
    decreases s.len(),
{
    if s.len() > 0 && s[0] != c {
        lemma_len_before(s.drop_first(), c);
        assert forall|k: int| 0 <= k < len_before(s, c) implies s[k] != c by {
            if k > 0 {
                assert(s[k] == s.drop_first()[k - 1]);
            }
        }
    }
}

/// The end of the first piece of `v[lo..hi]` split at `c`.
pub fn index_before(v: &Vec<char>, lo: usize, hi: usize, c: char) -> (r: usize)
    requires
        lo <= hi <= v.len(),
    ensures
        lo <= r <= hi,
        v@.subrange(lo as int, r as int) == before_char(v@.subrange(lo as int, hi as int), c),
{
    let mut i = lo;
    while i < hi && v[i] != c
        invariant
            lo <= i <= hi <= v.len(),
            len_before(v@.subrange(lo as int, hi as int), c) == (i - lo) + len_before(
                v@.subrange(i as int, hi as int),
                c,
            ),
        decreases hi - i,
    {
        assert(v@.subrange(i as int, hi as int).drop_first() =~= v@.subrange(i + 1, hi as int));
        i += 1;
    }
    assert(v@.subrange(lo as int, hi as int).subrange(0, i - lo) =~= v@.subrange(lo as int, i as int));
    i
}

} // verus!

verus! {

/// The whitespace-separated words of `s` (`str::split_whitespace`), given the
/// word `cur` under way and the words `acc` already found.
pub open spec fn words_acc(s: Seq<char>, cur: Seq<char>, acc: Seq<Seq<char>>) -> Seq<Seq<char>>
    decreases s.len(),
{
    if s.len() == 0 {
        if cur.len() > 0 {
            acc.push(cur)
        } else {
            acc
        }
    } else if is_ws(s[0]) {
        words_acc(s.drop_first(), Seq::empty(), if cur.len() > 0 { acc.push(cur) } else { acc })
    } else {
        words_acc(s.drop_first(), cur.push(s[0]), acc)
    }
}

pub open spec fn words(s: Seq<char>) -> Seq<Seq<char>> {
    words_acc(s, Seq::empty(), Seq::empty())
}

/// The words of `v[lo..hi]`, in order.
pub fn words_of(v: &Vec<char>, lo: usize, hi: usize) -> (res: Vec<Vec<char>>)
    requires
        lo <= hi <= v.len(),
    ensures
        res@.map_values(|w: Vec<char>| w@) == words(v@.subrange(lo as int, hi as int)),
{
    let mut acc: Vec<Vec<char>> = Vec::new();
    let mut cur: Vec<char> = Vec::new();
    let mut i = lo;
    assert(acc@.map_values(|w: Vec<char>| w@) =~= Seq::<Seq<char>>::empty());
    assert(cur@ =~= Seq::<char>::empty());
    while i < hi
        invariant
            lo <= i <= hi <= v.len(),
            words(v@.subrange(lo as int, hi as int)) == words_acc(
                v@.subrange(i as int, hi as int),
                cur@,
                acc@.map_values(|w: Vec<char>| w@),
            ),
        decreases hi - i,
    {
        let c = v[i];
        let ghost s0 = v@.subrange(i as int, hi as int);
        let ghost acc0 = acc@.map_values(|w: Vec<char>| w@);
        let ghost cur0 = cur@;
        assert(s0.drop_first() =~= v@.subrange(i + 1, hi as int));
        assert(s0[0] == c);
        if is_whitespace(c) {
            if cur.len() > 0 {
                let ghost before = acc@.map_values(|w: Vec<char>| w@);
                let ghost cv = cur@;
                let mut word: Vec<char> = Vec::new();
                std::mem::swap(&mut word, &mut cur);
                acc.push(word);
                assert(acc@.map_values(|w: Vec<char>| w@) =~= before.push(cv));
            }
            assert(cur@ =~= Seq::<char>::empty());
            assert(words_acc(s0, cur0, acc0) == words_acc(
                s0.drop_first(),
                Seq::empty(),
                if cur0.len() > 0 {
                    acc0.push(cur0)
                } else {
                    acc0
                },
            ));
        } else {
            cur.push(c);
            assert(words_acc(s0, cur0, acc0) == words_acc(s0.drop_first(), cur0.push(c), acc0));
        }
        i += 1;
    }
    if cur.len() > 0 {
        let ghost before = acc@.map_values(|w: Vec<char>| w@);
        let ghost cv = cur@;
        acc.push(cur);
        assert(acc@.map_values(|w: Vec<char>| w@) =~= before.push(cv));
    }
    acc
}

/// Whether `c` occurs in `v`.
pub fn has_char(v: &Vec<char>, c: char) -> (res: bool)
    ensures
        res == v@.contains(c),
{
    let mut i: usize = 0;
    while i < v.len()
        invariant
            i <= v.len(),
            forall|j: int| 0 <= j < i ==> v@[j] != c,
        decreases v.len() - i,
    {
        if v[i] == c {
            assert(v@[i as int] == c);
            return true;
        }
        i += 1;
    }
    false
}

} // verus!

verus! {

/// The pieces of `s` between line feeds (`str::split('\n')`), given the
/// piece `cur` under way and the pieces `acc` already found.
pub open spec fn pieces_acc(s: Seq<char>, cur: Seq<char>, acc: Seq<Seq<char>>) -> Seq<Seq<char>>
    decreases s.len(),
{
    if s.len() == 0 {
        acc.push(cur)
    } else if s[0] == '\n' {
        pieces_acc(s.drop_first(), Seq::empty(), acc.push(cur))
    } else {
        pieces_acc(s.drop_first(), cur.push(s[0]), acc)
    }
}

pub open spec fn line_pieces(s: Seq<char>) -> Seq<Seq<char>> {
    pieces_acc(s, Seq::empty(), Seq::empty())
}

/// The lines of `s`, split at line feeds.
pub fn split_lines(s: &str) -> (res: Vec<Vec<char>>)
    ensures
        res@.map_values(|w: Vec<char>| w@) == line_pieces(s@),
{
    let v = chars_of(s);
    let mut acc: Vec<Vec<char>> = Vec::new();
    let mut cur: Vec<char> = Vec::new();
    let mut i: usize = 0;
    assert(acc@.map_values(|w: Vec<char>| w@) =~= Seq::<Seq<char>>::empty());
    assert(cur@ =~= Seq::<char>::empty());
    assert(v@.subrange(0, v@.len() as int) =~= v@);
    while i < v.len()
        invariant
            v@ == s@,
            i <= v.len(),
            line_pieces(s@) == pieces_acc(
                v@.subrange(i as int, v@.len() as int),
                cur@,
                acc@.map_values(|w: Vec<char>| w@),
            ),
        decreases v.len() - i,
    {
        let c = v[i];
        let ghost s0 = v@.subrange(i as int, v@.len() as int);
        let ghost acc0 = acc@.map_values(|w: Vec<char>| w@);
        let ghost cur0 = cur@;
        assert(s0.drop_first() =~= v@.subrange(i + 1, v@.len() as int));
        assert(s0[0] == c);
        if c == '\n' {
            let mut piece: Vec<char> = Vec::new();
            std::mem::swap(&mut piece, &mut cur);
            acc.push(piece);
            assert(acc@.map_values(|w: Vec<char>| w@) =~= acc0.push(cur0));
            assert(cur@ =~= Seq::<char>::empty());
        } else {
            cur.push(c);
        }
        i += 1;
    }
    let ghost acc0 = acc@.map_values(|w: Vec<char>| w@);
    let ghost cur0 = cur@;
    acc.push(cur);
    assert(acc@.map_values(|w: Vec<char>| w@) =~= acc0.push(cur0));
    assert(v@.subrange(v@.len() as int, v@.len() as int) =~= Seq::<char>::empty());
    acc
}

} // verus!

verus! {

/// Splitting at line feeds gives at least one piece.
pub proof fn lemma_pieces_nonempty(s: Seq<char>, cur: Seq<char>, acc: Seq<Seq<char>>)
    ensures
        pieces_acc(s, cur, acc).len() >= acc.len() + 1,
    decreases s.len(),
{
    if s.len() > 0 {
        if s[0] == '\n' {
            lemma_pieces_nonempty(s.drop_first(), Seq::empty(), acc.push(cur));
        } else {
            lemma_pieces_nonempty(s.drop_first(), cur.push(s[0]), acc);
        }
    }
}

} // verus!

verus! {

/// Lower-casing an ASCII letter gives a letter that is not upper case;
/// lower-casing twice is lower-casing once.
pub proof fn lemma_ascii_lower_char(c: char)
    ensures
        !is_ascii_upper(ascii_lower(c)),
        ascii_lower(ascii_lower(c)) == ascii_lower(c),
        is_ascii_upper(c) ==> 'a' <= ascii_lower(c) <= 'z',
{
    if is_ascii_upper(c) {
        let x = (c as u32) + 32;
        assert(97 <= x <= 122);
        assert((x as char) as u32 == x);
    }
}

/// A predicate that ignores ASCII case.
pub open spec fn case_blind(p: spec_fn(char) -> bool) -> bool {
    forall|c: char| #[trigger] p(ascii_lower(c)) == p(c)
}

pub proof fn lemma_lower_seq_idempotent(s: Seq<char>)
    ensures
        lower_seq(lower_seq(s)) == lower_seq(s),
{
    assert forall|i: int| 0 <= i < s.len() implies lower_seq(lower_seq(s))[i] == lower_seq(s)[i] by {
        lemma_ascii_lower_char(s[i]);
    }
    assert(lower_seq(lower_seq(s)) =~= lower_seq(s));
}

pub proof fn lemma_trim_start_lower(s: Seq<char>, p: spec_fn(char) -> bool)
    requires
        case_blind(p),
    ensures
        trim_start_while(lower_seq(s), p) == lower_seq(trim_start_while(s, p)),
    decreases s.len(),
{
    if s.len() > 0 {
        assert(lower_seq(s)[0] == ascii_lower(s[0]));
        assert(p(ascii_lower(s[0])) == p(s[0]));
        assert(lower_seq(s).drop_first() =~= lower_seq(s.drop_first()));
        lemma_trim_start_lower(s.drop_first(), p);
    }
}

pub proof fn lemma_trim_end_lower(s: Seq<char>, p: spec_fn(char) -> bool)
    requires
        case_blind(p),
    ensures
        trim_end_while(lower_seq(s), p) == lower_seq(trim_end_while(s, p)),
    decreases s.len(),
{
    if s.len() > 0 {
        assert(lower_seq(s).last() == ascii_lower(s.last()));
        assert(p(ascii_lower(s.last())) == p(s.last()));
        assert(lower_seq(s).drop_last() =~= lower_seq(s.drop_last()));
        lemma_trim_end_lower(s.drop_last(), p);
    }
}

/// Trimming characters that ignore ASCII case commutes with lower-casing.
pub proof fn lemma_trim_both_lower(s: Seq<char>, p: spec_fn(char) -> bool)
    requires
        case_blind(p),
    ensures
        trim_both(lower_seq(s), p) == lower_seq(trim_both(s, p)),
{
    lemma_trim_start_lower(s, p);
    lemma_trim_end_lower(trim_start_while(s, p), p);
}

pub proof fn lemma_class_preds_case_blind()
    ensures
        case_blind(ws_pred()),
        case_blind(class_pred(CharClass::DomainEdge)),
{
    assert forall|c: char| #[trigger] ws_pred()(ascii_lower(c)) == ws_pred()(c) by {
        lemma_ascii_lower_char(c);
    }
    assert forall|c: char| #[trigger] class_pred(CharClass::DomainEdge)(ascii_lower(c)) == class_pred(
        CharClass::DomainEdge,
    )(c) by {
        lemma_ascii_lower_char(c);
    }
}

} // verus!
