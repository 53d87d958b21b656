//! Character-level string helpers shared by the rest of the library: the
//! few standard-library string operations it relies on, decimal rendering of
//! integers, and HTML text escaping.
use vstd::prelude::*;
use vstd::utf8::{decode_utf8, valid_utf8};

verus! {

/// Appends one character to a `String` (`String::push`).
/// Claimed: the string afterwards is the old one with `c` added at its end.
#[verifier::external_body]
pub(crate) fn string_push(s: &mut String, c: char)
    ensures
        final(s)@ == old(s)@.push(c),
{
    s.push(c);
}

/// Removes the last character of a `String` (`String::pop`).
/// Claimed: on a non-empty string the last character comes back and is gone
/// from the string; on an empty string `None` comes back and nothing changes.
#[verifier::external_body]
pub(crate) fn string_pop(s: &mut String) -> (r: Option<char>)
    ensures
        old(s)@.len() == 0 ==> r is None && final(s)@ == old(s)@,
        old(s)@.len() > 0 ==> r == Some(old(s)@.last()) && final(s)@ == old(s)@.drop_last(),
{
    s.pop()
}

/// Whether a string slice ends with a character (`str::ends_with` with a
/// `char` pattern). Claimed: true exactly when the slice is non-empty and its
/// last character is `c`.
#[verifier::external_body]
pub(crate) fn str_ends_with_char(s: &str, c: char) -> (r: bool)
    ensures
        r == (s@.len() > 0 && s@.last() == c),
{
    s.ends_with(c)
}

/// Decodes bytes as UTF-8 (`std::str::from_utf8`), copying the text out.
/// Claimed: the result is `Some` exactly when the bytes are valid UTF-8, and
/// then holds the decoded characters.
#[verifier::external_body]
pub(crate) fn utf8_to_string(bytes: &[u8]) -> (r: Option<String>)
    ensures
        r is Some <==> valid_utf8(bytes@),
        r matches Some(s) ==> s@ == decode_utf8(bytes@),
{
    match std::str::from_utf8(bytes) {
        Ok(s) => Some(s.to_string()),
        Err(_) => None,
    }
}

/// The HTML escape of one character, as `html_escape::encode_text` writes it.
pub open spec fn escape_html_char(c: char) -> Seq<char> {
    if c == '&' {
        seq!['&', 'a', 'm', 'p', ';']
    } else if c == '<' {
        seq!['&', 'l', 't', ';']
    } else if c == '>' {
        seq!['&', 'g', 't', ';']
    } else {
        seq![c]
    }
}

/// Text with every `&`, `<` and `>` replaced by its HTML entity.
pub open spec fn escape_html_text(s: Seq<char>) -> Seq<char>
    decreases s.len(),
{
    if s.len() == 0 {
        seq![]
    } else {
        escape_html_text(s.drop_last()) + escape_html_char(s.last())
    }
}

/// Escapes text for use between HTML tags (`html_escape::encode_text`).
/// Claimed: each `&`, `<`, `>` becomes `&amp;`, `&lt;`, `&gt;`, and every
/// other character is kept, in order.
#[verifier::external_body]
pub(crate) fn encode_html_text(s: &str) -> (r: String)
    ensures
        r@ == escape_html_text(s@),
{
    html_escape::encode_text(s).into_owned()
}

/// The characters of a string slice, one by one.
pub fn chars_of(s: &str) -> (r: Vec<char>)
    ensures
        r@ == s@,
{
    let n = s.unicode_len();
    let mut out: Vec<char> = Vec::new();
    let mut i: usize = 0;
    while i < n
        invariant
            n == s@.len(),
            i <= n,
            out@ == s@.subrange(0, i as int),
        decreases n - i,
    {
        let c = s.get_char(i);
        out.push(c);
        i = i + 1;
        assert(out@ =~= s@.subrange(0, i as int));
    }
    assert(out@ =~= s@);
    out
}

/// A `String` holding exactly the given characters.
pub fn string_from_chars(cs: &Vec<char>) -> (r: String)
    ensures
        r@ == cs@,
{
    let mut out = String::new();
    let mut i: usize = 0;
    while i < cs.len()
        invariant
            i <= cs.len(),
            out@ == cs@.subrange(0, i as int),
        decreases cs.len() - i,
    {
        string_push(&mut out, cs[i]);
        i = i + 1;
        assert(out@ =~= cs@.subrange(0, i as int));
    }
    assert(out@ =~= cs@);
    out
}

/// Whether two string slices hold the same characters.
pub fn str_eq(a: &str, b: &str) -> (r: bool)
    ensures
        r == (a@ == b@),
{
    let ca = chars_of(a);
    let cb = chars_of(b);
    if ca.len() != cb.len() {
        return false;
    }
    let mut i: usize = 0;
    while i < ca.len()
        invariant
            ca@ == a@,
            cb@ == b@,
            ca.len() == cb.len(),
            i <= ca.len(),
            forall|j: int| 0 <= j < i ==> ca@[j] == cb@[j],
        decreases ca.len() - i,
    {
        if ca[i] != cb[i] {
            return false;
        }
        i = i + 1;
    }
    assert(ca@ =~= cb@);
    true
}

/// A `String` with the characters of a string slice.
pub fn owned(s: &str) -> (r: String)
    ensures
        r@ == s@,
{
    let cs = chars_of(s);
    string_from_chars(&cs)
}

/// Appends the characters of `t` to `s`.
pub fn push_all(s: &mut String, t: &str)
    ensures
        final(s)@ == old(s)@ + t@,
{
    let cs = chars_of(t);
    let ghost start = s@;
    let mut i: usize = 0;
    while i < cs.len()
        invariant
            cs@ == t@,
            i <= cs.len(),
            s@ == start + cs@.subrange(0, i as int),
        decreases cs.len() - i,
    {
        string_push(s, cs[i]);
        i = i + 1;
        assert(s@ =~= start + cs@.subrange(0, i as int));
    }
    assert(cs@.subrange(0, cs@.len() as int) =~= cs@);
}

/// The decimal digit character for a value below ten.
pub open spec fn digit_char(d: int) -> char {
    if d == 0 { '0' }
    else if d == 1 { '1' }
    else if d == 2 { '2' }
    else if d == 3 { '3' }
    else if d == 4 { '4' }
    else if d == 5 { '5' }
    else if d == 6 { '6' }
    else if d == 7 { '7' }
    else if d == 8 { '8' }
    else { '9' }
}

/// The decimal notation of a natural number, without leading zeros.
pub open spec fn nat_decimal(n: nat) -> Seq<char>
    decreases n,
{
    if n < 10 {
        seq![digit_char(n as int)]
    } else {
        nat_decimal(n / 10) + seq![digit_char((n % 10) as int)]
    }
}

/// The decimal notation of an integer, with a leading `-` when negative.
pub open spec fn int_decimal(i: int) -> Seq<char> {
    if i < 0 {
        seq!['-'] + nat_decimal((-i) as nat)
    } else {
        nat_decimal(i as nat)
    }
}

fn digit(d: u64) -> (c: char)
    requires
        d < 10,
    ensures
        c == digit_char(d as int),
{
    if d == 0 { '0' }
    else if d == 1 { '1' }
    else if d == 2 { '2' }
    else if d == 3 { '3' }
    else if d == 4 { '4' }
    else if d == 5 { '5' }
    else if d == 6 { '6' }
    else if d == 7 { '7' }
    else if d == 8 { '8' }
    else { '9' }
}

/// The decimal notation of an unsigned number.
pub fn u64_to_string(n: u64) -> (r: String)
    ensures
        r@ == nat_decimal(n as nat),
    decreases n,
{
    if n < 10 {
        let mut s = String::new();
        string_push(&mut s, digit(n));
        assert(s@ =~= nat_decimal(n as nat));
        s
    } else {
        let mut s = u64_to_string(n / 10);
        string_push(&mut s, digit(n % 10));
        assert(s@ =~= nat_decimal(n as nat));
        s
    }
}

/// The decimal notation of a machine-size unsigned number.
pub fn usize_to_string(n: usize) -> (r: String)
    ensures
        r@ == nat_decimal(n as nat),
{
    u64_to_string(n as u64)
}

/// The decimal notation of a machine-size signed number.
pub fn isize_to_string(i: isize) -> (r: String)
    ensures
        r@ == int_decimal(i as int),
{
    if i < 0 {
        let wide: i128 = i as i128;
        let mag: u64 = (-wide) as u64;
        let digits = u64_to_string(mag);
        let mut s = String::new();
        string_push(&mut s, '-');
        push_all(&mut s, digits.as_str());
        assert(s@ =~= int_decimal(i as int));
        s
    } else {
        u64_to_string(i as u64)
    }
}

/// A copy of a list of strings.
pub fn clone_strings(v: &Vec<String>) -> (r: Vec<String>)
    ensures
        r.deep_view() == v.deep_view(),
{
    let mut out: Vec<String> = Vec::new();
    let mut i: usize = 0;
    while i < v.len()
        invariant
            i <= v.len(),
            out@.len() == i,
            forall|j: int| 0 <= j < i ==> #[trigger] out@[j]@ == v@[j]@,
        decreases v.len() - i,
    {
        let c = v[i].clone();
        out.push(c);
        i = i + 1;
    }
    assert(out.deep_view() =~= v.deep_view());
    out
}

/// The pieces of `s` between occurrences of `sep`, as `str::split` gives
/// them: one more piece than there are separators, empty pieces included.
pub open spec fn split_on(s: Seq<char>, sep: char) -> Seq<Seq<char>>
    decreases s.len(),
{
    if s.len() == 0 {
        seq![seq![]]
    } else {
        let rest = split_on(s.drop_last(), sep);
        if s.last() == sep {
            rest.push(seq![])
        } else {
            rest.update(rest.len() - 1, rest.last().push(s.last()))
        }
    }
}

pub proof fn lemma_split_on_len(s: Seq<char>, sep: char)
    ensures
        split_on(s, sep).len() >= 1,
{
    lemma_split_on_nonempty(s, sep);
}

proof fn lemma_split_on_nonempty(s: Seq<char>, sep: char)
    ensures
        split_on(s, sep).len() >= 1,
    decreases s.len(),
{
    if s.len() > 0 {
        lemma_split_on_nonempty(s.drop_last(), sep);
    }
}

/// Splits a string slice at every `sep`.
pub fn split_chars(s: &str, sep: char) -> (r: Vec<String>)
    ensures
        r.deep_view() == split_on(s@, sep),
{
    let cs = chars_of(s);
    let mut pieces: Vec<Vec<char>> = Vec::new();
    pieces.push(Vec::new());
    let mut i: usize = 0;
    proof {
        assert(cs@.subrange(0, 0) =~= Seq::<char>::empty());
        assert(pieces@.map_values(|p: Vec<char>| p@) =~= split_on(cs@.subrange(0, 0), sep));
    }
    while i < cs.len()
        invariant
            cs@ == s@,
            i <= cs.len(),
            pieces@.len() >= 1,
            pieces@.map_values(|p: Vec<char>| p@) == split_on(cs@.subrange(0, i as int), sep),
        decreases cs.len() - i,
    {
        let ghost prev = pieces@.map_values(|p: Vec<char>| p@);
        proof {
            assert(cs@.subrange(0, i + 1).drop_last() =~= cs@.subrange(0, i as int));
            lemma_split_on_nonempty(cs@.subrange(0, i as int), sep);
        }
        let c = cs[i];
        if c == sep {
            pieces.push(Vec::new());
            proof {
                assert(pieces@.map_values(|p: Vec<char>| p@) =~= prev.push(seq![]));
            }
        } else {
            let last = pieces.len() - 1;
            pieces[last].push(c);
            proof {
                assert(pieces@.map_values(|p: Vec<char>| p@) =~= prev.update(
                    last as int,
                    prev.last().push(c),
                ));
            }
        }
        i = i + 1;
    }
    proof {
        assert(cs@.subrange(0, cs@.len() as int) =~= cs@);
    }
    let ghost pv = pieces@.map_values(|p: Vec<char>| p@);
    let mut out: Vec<String> = Vec::new();
    let mut k: usize = 0;
    while k < pieces.len()
        invariant
            k <= pieces.len(),
            pv == pieces@.map_values(|p: Vec<char>| p@),
            out@.len() == k,
            forall|j: int| 0 <= j < k ==> #[trigger] out@[j]@ == pv[j],
        decreases pieces.len() - k,
    {
        let piece = string_from_chars(&pieces[k]);
        out.push(piece);
        k = k + 1;
    }
    assert(out.deep_view() =~= pv);
    out
}

/// The text `a + b`.
pub fn concat_str(a: &str, b: &str) -> (r: String)
    ensures
        r@ == a@ + b@,
{
    let mut s = owned(a);
    push_all(&mut s, b);
    s
}

/// The text of a boolean, as `bool::to_string` writes it.
pub open spec fn bool_text(b: bool) -> Seq<char> {
    if b {
        "true"@
    } else {
        "false"@
    }
}

/// `"true"` or `"false"`.
pub fn bool_to_string(b: bool) -> (r: String)
    ensures
        r@ == bool_text(b),
{
    if b {
        owned("true")
    } else {
        owned("false")
    }
}

/// A copy of a list of string pairs.
pub fn clone_pairs(v: &Vec<(String, String)>) -> (r: Vec<(String, String)>)
    ensures
        r.deep_view() == v.deep_view(),
{
    let mut out: Vec<(String, String)> = Vec::new();
    let mut i: usize = 0;
    while i < v.len()
        invariant
            i <= v.len(),
            out@.len() == i,
            forall|j: int| 0 <= j < i ==> #[trigger] out@[j].deep_view() == v@[j].deep_view(),
        decreases v.len() - i,
    {
        let (ref a, ref b) = v[i];
        out.push((a.clone(), b.clone()));
        i = i + 1;
    }
    assert(out.deep_view() =~= v.deep_view());
    out
}

/// `p` occurs in `s` starting at position `i`.
pub open spec fn matches_at(s: Seq<char>, p: Seq<char>, i: int) -> bool {
    0 <= i && i + p.len() <= s.len() && s.subrange(i, i + p.len()) == p
}

/// The first position at or after `i` where `p` occurs in `s`.
pub open spec fn first_match_from(s: Seq<char>, p: Seq<char>, i: int) -> Option<int>
    decreases s.len() + 1 - i,
{
    if i < 0 || i + p.len() > s.len() {
        None
    } else if matches_at(s, p, i) {
        Some(i)
    } else {
        first_match_from(s, p, i + 1)
    }
}

/// `s` holds `p` somewhere.
pub open spec fn contains_text(s: Seq<char>, p: Seq<char>) -> bool {
    first_match_from(s, p, 0) is Some
}

pub proof fn lemma_first_match_from(s: Seq<char>, p: Seq<char>, i: int)
    requires
        0 <= i,
    ensures
        match first_match_from(s, p, i) {
            Some(j) => i <= j && matches_at(s, p, j) && forall|m: int|
                i <= m < j ==> !#[trigger] matches_at(s, p, m),
            None => forall|m: int| i <= m ==> !#[trigger] matches_at(s, p, m),
        },
    decreases s.len() + 1 - i,
{
    if i + p.len() <= s.len() && !matches_at(s, p, i) {
        lemma_first_match_from(s, p, i + 1);
    }
}

/// The pieces of `s` between the occurrences of a non-empty `p`, as
/// `str::split` gives them (matches found left to right, not overlapping).
pub open spec fn split_text(s: Seq<char>, p: Seq<char>) -> Seq<Seq<char>>
    decreases s.len(),
{
    if p.len() == 0 {
        seq![s]
    } else {
        match first_match_from(s, p, 0) {
            Some(i) => {
                proof {
                    lemma_first_match_from(s, p, 0);
                }
                seq![s.subrange(0, i)] + split_text(s.subrange(i + p.len(), s.len() as int), p)
            },
            None => seq![s],
        }
    }
}

/// `str::split` always gives at least one piece.
pub proof fn lemma_split_text_nonempty(s: Seq<char>, p: Seq<char>)
    ensures
        split_text(s, p).len() >= 1,
{
    if p.len() > 0 {
        match first_match_from(s, p, 0) {
            Some(i) => {
                lemma_first_match_from(s, p, 0);
            },
            None => {},
        }
    }
}

pub proof fn lemma_join_prepend(a: Seq<char>, rest: Seq<Seq<char>>, sep: Seq<char>)
    requires
        rest.len() >= 1,
    ensures
        join_text(seq![a] + rest, sep) == a + sep + join_text(rest, sep),
    decreases rest.len(),
{
    let all = seq![a] + rest;
    if rest.len() == 1 {
        assert(all.drop_last() =~= seq![a]);
        assert(all.last() == rest[0]);
        assert(join_text(seq![a], sep) == a);
        assert(join_text(rest, sep) == rest[0]);
    } else {
        assert(all.drop_last() =~= seq![a] + rest.drop_last());
        lemma_join_prepend(a, rest.drop_last(), sep);
        assert(all.last() == rest.last());
        assert(join_text(rest, sep) == join_text(rest.drop_last(), sep) + sep + rest.last());
        assert(join_text(all, sep) == join_text(all.drop_last(), sep) + sep + all.last());
        assert(a + sep + join_text(rest.drop_last(), sep) + sep + rest.last() =~= a + sep + (join_text(rest.drop_last(), sep) + sep + rest.last()));
    }
}

/// Joining the pieces of a split with the separator gives back the text.
pub proof fn lemma_join_split(s: Seq<char>, p: Seq<char>)
    requires
        p.len() > 0,
    ensures
        join_text(split_text(s, p), p) == s,
    decreases s.len(),
{
    match first_match_from(s, p, 0) {
        Some(i) => {
            lemma_first_match_from(s, p, 0);
            let rest = s.subrange(i + p.len(), s.len() as int);
            lemma_join_split(rest, p);
            lemma_split_text_nonempty(rest, p);
            lemma_join_prepend(s.subrange(0, i), split_text(rest, p), p);
            assert(s.subrange(i, i + p.len()) == p);
            assert(s =~= s.subrange(0, i) + p + rest);
        },
        None => {},
    }
}

/// The pieces joined with `sep` between them.
pub open spec fn join_text(pieces: Seq<Seq<char>>, sep: Seq<char>) -> Seq<char>
    decreases pieces.len(),
{
    if pieces.len() == 0 {
        seq![]
    } else if pieces.len() == 1 {
        pieces[0]
    } else {
        join_text(pieces.drop_last(), sep) + sep + pieces.last()
    }
}

/// Whether `p` occurs in `cs` at position `i`.
fn match_here(cs: &Vec<char>, p: &Vec<char>, i: usize) -> (b: bool)
    requires
        i + p@.len() <= cs@.len(),
    ensures
        b == matches_at(cs@, p@, i as int),
{
    let total = cs.len();
    let mut k: usize = 0;
    while k < p.len()
        invariant
            k <= p.len(),
            i + p@.len() <= cs@.len(),
            total == cs@.len(),
            forall|m: int| 0 <= m < k ==> cs@[i + m] == p@[m],
        decreases p.len() - k,
    {
        if cs[i + k] != p[k] {
            assert(cs@.subrange(i as int, i + p@.len())[k as int] != p@[k as int]);
            return false;
        }
        k = k + 1;
    }
    assert(cs@.subrange(i as int, i + p@.len()) =~= p@);
    true
}

/// The first position at or after `i` where `p` occurs in `cs`.
fn find_from(cs: &Vec<char>, p: &Vec<char>, i: usize) -> (r: Option<usize>)
    requires
        i <= cs@.len(),
    ensures
        r matches Some(j) ==> first_match_from(cs@, p@, i as int) == Some(j as int),
        r is None ==> first_match_from(cs@, p@, i as int) is None,
    decreases cs@.len() + 1 - i,
{
    if p.len() > cs.len() || i > cs.len() - p.len() {
        None
    } else if match_here(cs, p, i) {
        Some(i)
    } else {
        proof {
            if p@.len() == 0 {
                assert(cs@.subrange(i as int, i as int) =~= p@);
            }
        }
        find_from(cs, p, i + 1)
    }
}

/// Whether `p` occurs in `s`.
pub fn str_contains(s: &str, p: &str) -> (b: bool)
    ensures
        b == contains_text(s@, p@),
{
    let cs = chars_of(s);
    let ps = chars_of(p);
    match find_from(&cs, &ps, 0) {
        Some(_) => true,
        None => false,
    }
}

/// The characters `cs[from..to]` as a `String`.
fn slice_string(cs: &Vec<char>, from: usize, to: usize) -> (r: String)
    requires
        from <= to <= cs@.len(),
    ensures
        r@ == cs@.subrange(from as int, to as int),
{
    let mut out = String::new();
    let mut k = from;
    while k < to
        invariant
            from <= k <= to,
            to <= cs@.len(),
            out@ == cs@.subrange(from as int, k as int),
        decreases to - k,
    {
        string_push(&mut out, cs[k]);
        k = k + 1;
        assert(out@ =~= cs@.subrange(from as int, k as int));
    }
    out
}

proof fn lemma_split_text_step(s: Seq<char>, p: Seq<char>, i: int)
    requires
        p.len() > 0,
        0 <= i <= s.len(),
    ensures
        split_text(s.subrange(i, s.len() as int), p) == match first_match_from(s, p, i) {
            Some(j) => seq![s.subrange(i, j)] + split_text(s.subrange(j + p.len(), s.len() as int), p),
            None => seq![s.subrange(i, s.len() as int)],
        },
{
    let t = s.subrange(i, s.len() as int);
    lemma_first_match_from(s, p, i);
    lemma_first_match_from(t, p, 0);
    assert forall|m: int| 0 <= m implies #[trigger] matches_at(t, p, m) == matches_at(s, p, m + i) by {
        if m + p.len() <= t.len() {
            assert(t.subrange(m, m + p.len()) =~= s.subrange(m + i, m + i + p.len()));
        }
    }
    match first_match_from(s, p, i) {
        Some(j) => {
            assert(matches_at(t, p, j - i));
            match first_match_from(t, p, 0) {
                Some(q) => {
                    assert(q == j - i) by {
                        if q < j - i {
                            assert(matches_at(s, p, q + i));
                        }
                        if q > j - i {
                            assert(!matches_at(t, p, j - i));
                        }
                    }
                    assert(t.subrange(0, q) =~= s.subrange(i, j));
                    assert(t.subrange(q + p.len(), t.len() as int) =~= s.subrange(j + p.len(), s.len() as int));
                },
                None => {
                    assert(!matches_at(t, p, j - i));
                },
            }
        },
        None => {
            match first_match_from(t, p, 0) {
                Some(q) => {
                    assert(matches_at(s, p, q + i));
                },
                None => {},
            }
        },
    }
}

/// Splits `s` at every occurrence of the non-empty `p`.
pub fn split_str(s: &str, p: &str) -> (r: Vec<String>)
    requires
        p@.len() > 0,
    ensures
        r.deep_view() == split_text(s@, p@),
{
    let cs = chars_of(s);
    let ps = chars_of(p);
    let mut out: Vec<String> = Vec::new();
    let mut i: usize = 0;
    let total = cs.len();
    proof {
        assert(cs@.subrange(0, cs@.len() as int) =~= cs@);
    }
    loop
        invariant
            total == cs@.len(),
            cs@ == s@,
            ps@ == p@,
            p@.len() > 0,
            i <= cs@.len(),
            out.deep_view() + split_text(cs@.subrange(i as int, cs@.len() as int), p@) == split_text(s@, p@),
        decreases cs@.len() - i,
    {
        proof {
            lemma_split_text_step(cs@, p@, i as int);
            lemma_first_match_from(cs@, p@, i as int);
        }
        match find_from(&cs, &ps, i) {
            Some(j) => {
                let piece = slice_string(&cs, i, j);
                let ghost before = out.deep_view();
                out.push(piece);
                proof {
                    assert(out.deep_view() =~= before.push(piece@));
                    assert(seq![cs@.subrange(i as int, j as int)] + split_text(
                        cs@.subrange(j + p@.len(), cs@.len() as int),
                        p@,
                    ) == split_text(cs@.subrange(i as int, cs@.len() as int), p@));
                    assert(before.push(piece@) + split_text(cs@.subrange(j + p@.len(), cs@.len() as int), p@)
                        =~= before + (seq![cs@.subrange(i as int, j as int)] + split_text(
                        cs@.subrange(j + p@.len(), cs@.len() as int),
                        p@,
                    )));
                }
                i = j + ps.len();
            },
            None => {
                let piece = slice_string(&cs, i, cs.len());
                let ghost before = out.deep_view();
                out.push(piece);
                proof {
                    assert(out.deep_view() =~= before.push(piece@));
                    assert(out.deep_view() =~= before + seq![cs@.subrange(i as int, cs@.len() as int)]);
                }
                return out;
            },
        }
    }
}

/// The pieces joined with `sep` between them.
pub fn join_strs(pieces: &Vec<String>, sep: &str) -> (r: String)
    ensures
        r@ == join_text(pieces.deep_view(), sep@),
{
    let mut out = String::new();
    let mut k: usize = 0;
    while k < pieces.len()
        invariant
            k <= pieces.len(),
            out@ == join_text(pieces.deep_view().subrange(0, k as int), sep@),
        decreases pieces.len() - k,
    {
        proof {
            assert(pieces.deep_view().subrange(0, k + 1).drop_last() =~= pieces.deep_view().subrange(0, k as int));
        }
        if k > 0 {
            push_all(&mut out, sep);
        }
        push_all(&mut out, pieces[k].as_str());
        k = k + 1;
        proof {
            if k == 1 {
                assert(out@ =~= pieces.deep_view().subrange(0, 1)[0]);
            }
        }
    }
    proof {
        assert(pieces.deep_view().subrange(0, pieces.deep_view().len() as int) =~= pieces.deep_view());
    }
    out
}

} // verus!
