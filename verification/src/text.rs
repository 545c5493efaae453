//! Character classes and elementary text scanning shared by the grammars
//! of this crate: whitespace and digit runs, literal matching, line
//! splitting and joining.

use vstd::prelude::*;
use vstd::string::StrSliceExecFns;

verus! {

/// Relies on `alloc::string::String::push`: appending one character to
/// a string, which vstd leaves unspecified.
pub assume_specification[ String::push ](s: &mut String, ch: char)
    ensures
        final (s)@ == old(s)@.push(ch),
;

/// Whitespace as the grammars of this crate understand it.
pub open spec fn is_ws(c: char) -> bool {
    c == ' ' || c == '\t'
}

/// An ASCII decimal digit.
pub open spec fn is_digit(c: char) -> bool {
    '0' <= c && c <= '9'
}

/// An ASCII letter.
pub open spec fn is_alpha(c: char) -> bool {
    ('A' <= c && c <= 'Z') || ('a' <= c && c <= 'z')
}

/// A word character: an ASCII letter, a digit or an underscore.
pub open spec fn is_word_char(c: char) -> bool {
    is_alpha(c) || is_digit(c) || c == '_'
}

/// A character allowed in a release tag between the square brackets of a
/// changelog heading.
pub open spec fn is_tag_char(c: char) -> bool {
    is_alpha(c) || is_digit(c) || c == '_' || c == '-' || c == '.'
}

pub fn ws_char(c: char) -> (r: bool)
    ensures
        r == is_ws(c),
{
    c == ' ' || c == '\t'
}

pub fn digit_char(c: char) -> (r: bool)
    ensures
        r == is_digit(c),
{
    '0' <= c && c <= '9'
}

pub fn alpha_char(c: char) -> (r: bool)
    ensures
        r == is_alpha(c),
{
    ('A' <= c && c <= 'Z') || ('a' <= c && c <= 'z')
}

pub fn word_char(c: char) -> (r: bool)
    ensures
        r == is_word_char(c),
{
    alpha_char(c) || digit_char(c) || c == '_'
}

pub fn tag_char(c: char) -> (r: bool)
    ensures
        r == is_tag_char(c),
{
    alpha_char(c) || digit_char(c) || c == '_' || c == '-' || c == '.'
}

/// The pattern `pat` occurs in `s` at position `i`.
pub open spec fn matches_at(s: Seq<char>, i: int, pat: Seq<char>) -> bool {
    &&& 0 <= i
    &&& i + pat.len() <= s.len()
    &&& forall|k: int| 0 <= k < pat.len() ==> s[i + k] == pat[k]
}

/// Whether `pat` occurs in `s` at position `i`.
pub fn has_at(s: &str, i: usize, pat: &str) -> (r: bool)
    ensures
        r == matches_at(s@, i as int, pat@),
{
    let n = s.unicode_len();
    let m = pat.unicode_len();
    if i > n || m > n - i {
        return false;
    }
    let mut k: usize = 0;
    while k < m
        invariant
            0 <= k <= m,
            i + m <= n,
            n == s@.len(),
            m == pat@.len(),
            forall|t: int| 0 <= t < k ==> s@[i + t] == pat@[t],
        decreases m - k,
    {
        if s.get_char(i + k) != pat.get_char(k) {
            return false;
        }
        k += 1;
    }
    true
}

/// The end of the run of whitespace that starts at `i`.
pub open spec fn ws_end(s: Seq<char>, i: int) -> int
    decreases s.len() - i when 0 <= i <= s.len()
{
    if i < s.len() && is_ws(s[i]) {
        ws_end(s, i + 1)
    } else {
        i
    }
}

pub proof fn lemma_ws_end(s: Seq<char>, i: int)
    requires
        0 <= i <= s.len(),
    ensures
        i <= ws_end(s, i) <= s.len(),
        forall|k: int| i <= k < ws_end(s, i) ==> is_ws(s[k]),
        ws_end(s, i) < s.len() ==> !is_ws(s[ws_end(s, i)]),
    decreases s.len() - i,
{
    if i < s.len() && is_ws(s[i]) {
        lemma_ws_end(s, i + 1);
    }
}

/// The end of the run of decimal digits that starts at `i`.
pub open spec fn digits_end(s: Seq<char>, i: int) -> int
    decreases s.len() - i when 0 <= i <= s.len()
{
    if i < s.len() && is_digit(s[i]) {
        digits_end(s, i + 1)
    } else {
        i
    }
}

pub proof fn lemma_digits_end(s: Seq<char>, i: int)
    requires
        0 <= i <= s.len(),
    ensures
        i <= digits_end(s, i) <= s.len(),
        forall|k: int| i <= k < digits_end(s, i) ==> is_digit(s[k]),
        digits_end(s, i) < s.len() ==> !is_digit(s[digits_end(s, i)]),
    decreases s.len() - i,
{
    if i < s.len() && is_digit(s[i]) {
        lemma_digits_end(s, i + 1);
    }
}

/// Skip the whitespace run that starts at `i`.
pub fn skip_ws(s: &str, i: usize) -> (j: usize)
    requires
        i <= s@.len(),
    ensures
        j == ws_end(s@, i as int),
        i <= j <= s@.len(),
{
    let n = s.unicode_len();
    let mut j = i;
    while j < n && ws_char(s.get_char(j))
        invariant
            i <= j <= n,
            n == s@.len(),
            ws_end(s@, i as int) == ws_end(s@, j as int),
        decreases n - j,
    {
        j += 1;
    }
    proof {
        lemma_ws_end(s@, j as int);
    }
    j
}

/// Skip the digit run that starts at `i`.
pub fn skip_digits(s: &str, i: usize) -> (j: usize)
    requires
        i <= s@.len(),
    ensures
        j == digits_end(s@, i as int),
        i <= j <= s@.len(),
{
    let n = s.unicode_len();
    let mut j = i;
    while j < n && digit_char(s.get_char(j))
        invariant
            i <= j <= n,
            n == s@.len(),
            digits_end(s@, i as int) == digits_end(s@, j as int),
        decreases n - j,
    {
        j += 1;
    }
    proof {
        lemma_digits_end(s@, j as int);
    }
    j
}

/// The position of the first occurrence of `c` in `s` at or after `i`.
pub open spec fn find_char_from(s: Seq<char>, i: int, c: char) -> Option<int>
    decreases s.len() - i when 0 <= i
{
    if i >= s.len() {
        None
    } else if s[i] == c {
        Some(i)
    } else {
        find_char_from(s, i + 1, c)
    }
}

pub proof fn lemma_find_char_from(s: Seq<char>, i: int, c: char)
    requires
        0 <= i,
    ensures
        match find_char_from(s, i, c) {
            Some(j) => i <= j < s.len() && s[j] == c && forall|k: int| i <= k < j ==> s[k] != c,
            None => forall|k: int| i <= k < s.len() ==> s[k] != c,
        },
    decreases s.len() - i,
{
    if i < s.len() && s[i] != c {
        lemma_find_char_from(s, i + 1, c);
    }
}

/// Find the first occurrence of `c` in `s` at or after `from`.
pub fn find_char(s: &str, from: usize, c: char) -> (r: Option<usize>)
    requires
        from <= s@.len(),
    ensures
        match r {
            Some(j) => find_char_from(s@, from as int, c) == Some(j as int) && from <= j
                < s@.len(),
            None => find_char_from(s@, from as int, c) is None,
        },
{
    let n = s.unicode_len();
    let mut i = from;
    while i < n
        invariant
            from <= i <= n,
            n == s@.len(),
            find_char_from(s@, from as int, c) == find_char_from(s@, i as int, c),
        decreases n - i,
    {
        if s.get_char(i) == c {
            return Some(i);
        }
        i += 1;
    }
    None
}

/// The position of the first occurrence of `pat` in `s` at or after `i`.
pub open spec fn find_at(s: Seq<char>, i: int, pat: Seq<char>) -> Option<int>
    decreases s.len() - i when 0 <= i
{
    if i + pat.len() > s.len() {
        None
    } else if matches_at(s, i, pat) {
        Some(i)
    } else {
        find_at(s, i + 1, pat)
    }
}

pub proof fn lemma_find_at(s: Seq<char>, i: int, pat: Seq<char>)
    requires
        0 <= i,
    ensures
        match find_at(s, i, pat) {
            Some(j) => i <= j && matches_at(s, j, pat) && forall|k: int|
                i <= k < j ==> !matches_at(s, k, pat),
            None => forall|k: int| i <= k ==> !matches_at(s, k, pat),
        },
    decreases s.len() - i,
{
    if i + pat.len() > s.len() {
        assert forall|k: int| i <= k implies !matches_at(s, k, pat) by {
        }
    } else if !matches_at(s, i, pat) {
        lemma_find_at(s, i + 1, pat);
    }
}

/// The text split at every line feed: the lines of `s`, without their
/// terminators.  A trailing line feed closes the last line instead of
/// opening an empty one, so the empty text has no lines.
pub open spec fn split_lines(s: Seq<char>) -> Seq<Seq<char>>
    decreases s.len(),
    when s.len() >= 0
    via split_lines_dec
{
    if s.len() == 0 {
        Seq::empty()
    } else {
        match find_char_from(s, 0, '\n') {
            None => seq![s],
            Some(i) => seq![s.subrange(0, i)] + split_lines(s.subrange(i + 1, s.len() as int)),
        }
    }
}

#[via_fn]
proof fn split_lines_dec(s: Seq<char>) {
    lemma_find_char_from(s, 0, '\n');
}

pub proof fn lemma_split_lines_len(s: Seq<char>)
    ensures
        s.len() == 0 <==> split_lines(s).len() == 0,
{
    if s.len() > 0 {
        lemma_find_char_from(s, 0, '\n');
    }
}

/// The first line of `s`: everything before the first line feed.
pub open spec fn first_line(s: Seq<char>) -> Seq<char> {
    match find_char_from(s, 0, '\n') {
        None => s,
        Some(i) => s.subrange(0, i),
    }
}

/// `s` without its leading run of whitespace.
pub open spec fn trim_start(s: Seq<char>) -> Seq<char> {
    s.subrange(ws_end(s, 0), s.len() as int)
}

/// Remove the leading whitespace of `s`.
pub fn trim_start_str(s: &str) -> (r: &str)
    ensures
        r@ == trim_start(s@),
{
    proof {
        lemma_ws_end(s@, 0);
    }
    let j = skip_ws(s, 0);
    s.substring_char(j, s.unicode_len())
}

/// The elements of `xs` joined with the separator `sep` between any two.
pub open spec fn join_seqs(xs: Seq<Seq<char>>, sep: Seq<char>) -> Seq<char>
    decreases xs.len(),
{
    if xs.len() == 0 {
        Seq::empty()
    } else if xs.len() == 1 {
        xs[0]
    } else {
        xs[0] + sep + join_seqs(xs.drop_first(), sep)
    }
}

pub proof fn lemma_join_seqs_push(xs: Seq<Seq<char>>, x: Seq<char>, sep: Seq<char>)
    ensures
        xs.len() == 0 ==> join_seqs(xs.push(x), sep) == x,
        xs.len() > 0 ==> join_seqs(xs.push(x), sep) =~= join_seqs(xs, sep) + sep + x,
    decreases xs.len(),
{
    let p = xs.push(x);
    if xs.len() == 0 {
        assert(p.len() == 1);
        assert(p[0] == x);
    } else {
        lemma_join_seqs_push(xs.drop_first(), x, sep);
        assert(p.drop_first() =~= xs.drop_first().push(x));
        if xs.len() == 1 {
            assert(join_seqs(p, sep) == p[0] + sep + join_seqs(p.drop_first(), sep));
            assert(join_seqs(xs, sep) == xs[0]);
            assert(p[0] == xs[0]);
        }
    }
}

/// Every element of `xs` followed by a line feed.
pub open spec fn terminated_text(xs: Seq<Seq<char>>) -> Seq<char>
    decreases xs.len(),
{
    if xs.len() == 0 {
        Seq::empty()
    } else {
        xs[0] + seq!['\n'] + terminated_text(xs.drop_first())
    }
}

pub proof fn lemma_terminated_text_push(xs: Seq<Seq<char>>, x: Seq<char>)
    ensures
        terminated_text(xs.push(x)) =~= terminated_text(xs) + x + seq!['\n'],
    decreases xs.len(),
{
    let p = xs.push(x);
    if xs.len() == 0 {
        assert(p[0] == x);
        assert(p.drop_first() =~= Seq::<Seq<char>>::empty());
        assert(terminated_text(p) == p[0] + seq!['\n'] + terminated_text(p.drop_first()));
        assert(terminated_text(p.drop_first()) == Seq::<char>::empty());
        assert(terminated_text(xs) == Seq::<char>::empty());
    } else {
        lemma_terminated_text_push(xs.drop_first(), x);
        assert(p.drop_first() =~= xs.drop_first().push(x));
        assert(p[0] == xs[0]);
        assert(terminated_text(p) == p[0] + seq!['\n'] + terminated_text(p.drop_first()));
        assert(terminated_text(p.drop_first()) == terminated_text(xs.drop_first()) + x + seq![
            '\n',
        ]);
        assert(terminated_text(xs) == xs[0] + seq!['\n'] + terminated_text(xs.drop_first()));
    }
}

/// No line feed occurs in `s`.
pub open spec fn no_nl(s: Seq<char>) -> bool {
    forall|k: int| 0 <= k < s.len() ==> s[k] != '\n'
}

/// No line of a split text carries a line feed.
pub proof fn lemma_split_lines_no_nl(s: Seq<char>)
    ensures
        forall|j: int| 0 <= j < split_lines(s).len() ==> no_nl(#[trigger] split_lines(s)[j]),
    decreases s.len(),
{
    if s.len() > 0 {
        lemma_find_char_from(s, 0, '\n');
        match find_char_from(s, 0, '\n') {
            None => {
                assert(no_nl(s));
            },
            Some(i) => {
                let rest = s.subrange(i + 1, s.len() as int);
                lemma_split_lines_no_nl(rest);
                assert(no_nl(s.subrange(0, i)));
                assert forall|j: int| 0 <= j < split_lines(s).len() implies no_nl(
                    #[trigger] split_lines(s)[j],
                ) by {
                    if j > 0 {
                        assert(split_lines(s)[j] == split_lines(rest)[j - 1]);
                    }
                }
            },
        }
    }
}

/// A non-empty text without line feeds is its own single line.
pub proof fn lemma_single_line(s: Seq<char>)
    requires
        s.len() > 0,
        no_nl(s),
    ensures
        split_lines(s) == seq![s],
{
    lemma_find_char_from(s, 0, '\n');
    if find_char_from(s, 0, '\n') is Some {
        let j = find_char_from(s, 0, '\n')->Some_0;
        assert(s[j] == '\n');
        assert(false);
    }
}

/// Joining pieces without line feeds by a separator without line feeds
/// yields a text without line feeds.
pub proof fn lemma_join_no_nl(xs: Seq<Seq<char>>, sep: Seq<char>)
    requires
        forall|j: int| 0 <= j < xs.len() ==> no_nl(#[trigger] xs[j]),
        no_nl(sep),
    ensures
        no_nl(join_seqs(xs, sep)),
    decreases xs.len(),
{
    if xs.len() > 1 {
        assert forall|j: int| 0 <= j < xs.drop_first().len() implies no_nl(
            #[trigger] xs.drop_first()[j],
        ) by {
            assert(xs.drop_first()[j] == xs[j + 1]);
        }
        lemma_join_no_nl(xs.drop_first(), sep);
    }
}

/// Lexicographic order on character sequences, by code point.
pub open spec fn lex_leq(a: Seq<char>, b: Seq<char>) -> bool
    decreases a.len(),
{
    if a.len() == 0 {
        true
    } else if b.len() == 0 {
        false
    } else if a[0] == b[0] {
        lex_leq(a.drop_first(), b.drop_first())
    } else {
        a[0] < b[0]
    }
}

/// The closure form of [`lex_leq`], as sorting specifications expect it.
pub open spec fn lex_leq_fn() -> spec_fn(Seq<char>, Seq<char>) -> bool {
    |a: Seq<char>, b: Seq<char>| lex_leq(a, b)
}

pub proof fn lemma_lex_connected(a: Seq<char>, b: Seq<char>)
    ensures
        lex_leq(a, b) || lex_leq(b, a),
    decreases a.len(),
{
    if a.len() > 0 && b.len() > 0 && a[0] == b[0] {
        lemma_lex_connected(a.drop_first(), b.drop_first());
    }
}

pub proof fn lemma_lex_antisymmetric(a: Seq<char>, b: Seq<char>)
    requires
        lex_leq(a, b),
        lex_leq(b, a),
    ensures
        a == b,
    decreases a.len(),
{
    if a.len() == 0 {
        assert(b.len() == 0);
        assert(a =~= b);
    } else {
        assert(b.len() > 0);
        assert(a[0] == b[0]);
        lemma_lex_antisymmetric(a.drop_first(), b.drop_first());
        assert(a.drop_first() == b.drop_first());
        assert(a.len() == b.len());
        assert forall|k: int| 0 <= k < a.len() implies a[k] == b[k] by {
            if k > 0 {
                assert(a[k] == a.drop_first()[k - 1]);
                assert(b[k] == b.drop_first()[k - 1]);
            }
        }
        assert(a =~= b);
    }
}

pub proof fn lemma_lex_transitive(a: Seq<char>, b: Seq<char>, c: Seq<char>)
    requires
        lex_leq(a, b),
        lex_leq(b, c),
    ensures
        lex_leq(a, c),
    decreases a.len(),
{
    if a.len() > 0 && b.len() > 0 && c.len() > 0 {
        if a[0] == b[0] && b[0] == c[0] {
            lemma_lex_transitive(a.drop_first(), b.drop_first(), c.drop_first());
        }
    }
}

/// Lexicographic order is a total ordering.
pub proof fn lemma_lex_total_ordering()
    ensures
        vstd::relations::total_ordering(lex_leq_fn()),
{
    let r = lex_leq_fn();
    assert forall|x: Seq<char>| #[trigger] r(x, x) by {
        lemma_lex_connected(x, x);
    }
    assert forall|x: Seq<char>, y: Seq<char>| #[trigger] r(x, y) && #[trigger] r(y, x) implies x
        == y by {
        lemma_lex_antisymmetric(x, y);
    }
    assert forall|x: Seq<char>, y: Seq<char>, z: Seq<char>|
        #[trigger] r(x, y) && #[trigger] r(y, z) implies r(x, z) by {
        lemma_lex_transitive(x, y, z);
    }
    assert forall|x: Seq<char>, y: Seq<char>| #[trigger] r(x, y) || #[trigger] r(y, x) by {
        lemma_lex_connected(x, y);
    }
}

/// Whether `a` comes no later than `b` in lexicographic order.
pub fn str_lex_leq(a: &str, b: &str) -> (r: bool)
    ensures
        r == lex_leq(a@, b@),
{
    let la = a.unicode_len();
    let lb = b.unicode_len();
    let mut i: usize = 0;
    proof {
        assert(a@.skip(0) =~= a@);
        assert(b@.skip(0) =~= b@);
    }
    while i < la && i < lb
        invariant
            0 <= i <= la,
            0 <= i <= lb,
            la == a@.len(),
            lb == b@.len(),
            lex_leq(a@, b@) == lex_leq(a@.skip(i as int), b@.skip(i as int)),
        decreases la - i,
    {
        let ca = a.get_char(i);
        let cb = b.get_char(i);
        proof {
            assert(a@.skip(i as int)[0] == a@[i as int]);
            assert(b@.skip(i as int)[0] == b@[i as int]);
            assert(a@.skip(i as int).drop_first() =~= a@.skip(i + 1));
            assert(b@.skip(i as int).drop_first() =~= b@.skip(i + 1));
        }
        if ca != cb {
            return ca < cb;
        }
        i += 1;
    }
    proof {
        if i == la {
            assert(a@.skip(i as int).len() == 0);
        } else {
            assert(b@.skip(i as int).len() == 0);
            assert(a@.skip(i as int).len() > 0);
        }
    }
    i == la
}

/// Inserting an element anywhere adds exactly it to the multiset.
pub proof fn lemma_to_multiset_insert(s: Seq<Seq<char>>, i: int, a: Seq<char>)
    requires
        0 <= i <= s.len(),
    ensures
        s.insert(i, a).to_multiset() == s.to_multiset().insert(a),
{
    broadcast use vstd::seq_lib::group_to_multiset_ensures;
    broadcast use vstd::multiset::group_multiset_axioms;

    let left = s.subrange(0, i);
    let right = s.subrange(i, s.len() as int);
    assert(s.insert(i, a) =~= left.push(a) + right);
    assert(s =~= left + right);
    vstd::seq_lib::lemma_multiset_commutative(left.push(a), right);
    vstd::seq_lib::lemma_multiset_commutative(left, right);
    assert(left.push(a).to_multiset() =~= left.to_multiset().insert(a));
    assert(s.insert(i, a).to_multiset() =~= s.to_multiset().insert(a));
}

/// Sort strings lexicographically, ascending.
pub fn sort_strings(v: &Vec<String>) -> (r: Vec<String>)
    ensures
        vstd::relations::sorted_by(r.deep_view(), lex_leq_fn()),
        r.deep_view().to_multiset() == v.deep_view().to_multiset(),
{
    broadcast use vstd::seq_lib::group_to_multiset_ensures;

    let mut out: Vec<String> = Vec::new();
    let mut i: usize = 0;
    while i < v.len()
        invariant
            0 <= i <= v.len(),
            vstd::relations::sorted_by(out.deep_view(), lex_leq_fn()),
            out.deep_view().to_multiset() == v.deep_view().take(i as int).to_multiset(),
        decreases v.len() - i,
    {
        broadcast use vstd::seq_lib::group_to_multiset_ensures;

        let s = v[i].clone();
        proof {
            assert(v.deep_view()[i as int] == v@[i as int]@);
            assert(s@ == v.deep_view()[i as int]);
        }
        let mut p: usize = 0;
        while p < out.len() && !str_lex_leq(s.as_str(), out[p].as_str())
            invariant
                0 <= p <= out.len(),
                forall|k: int| 0 <= k < p ==> !lex_leq(s@, #[trigger] out.deep_view()[k]),
            decreases out.len() - p,
        {
            p += 1;
        }
        let ghost pre = out.deep_view();
        let ghost pos = p as int;
        out.insert(p, s);
        proof {
            assert(out.deep_view() =~= pre.insert(pos, s@));
            let dv = out.deep_view();
            let leq = lex_leq_fn();
            if pos < pre.len() {
                assert(lex_leq(s@, pre[pos]));
            }
            assert forall|k: int| 0 <= k < pos implies lex_leq(#[trigger] pre[k], s@) by {
                lemma_lex_connected(s@, pre[k]);
            }
            assert forall|k: int| pos <= k < pre.len() implies lex_leq(s@, #[trigger] pre[k]) by {
                if k > pos {
                    assert(leq(pre[pos], pre[k]));
                    lemma_lex_transitive(s@, pre[pos], pre[k]);
                }
            }
            assert forall|k1: int, k2: int| 0 <= k1 < k2 < dv.len() implies #[trigger] leq(
                dv[k1],
                dv[k2],
            ) by {
                assert(forall|k: int| 0 <= k < pos ==> dv[k] == pre[k]);
                assert(dv[pos] == s@);
                assert(forall|k: int| pos < k < dv.len() ==> dv[k] == pre[k - 1]);
                if k2 < pos {
                    assert(leq(pre[k1], pre[k2]));
                } else if k1 > pos {
                    assert(leq(pre[k1 - 1], pre[k2 - 1]));
                } else if k1 == pos {
                    assert(lex_leq(s@, pre[k2 - 1]));
                } else if k2 == pos {
                    assert(lex_leq(pre[k1], s@));
                } else if k1 < pos && k2 > pos {
                    assert(lex_leq(pre[k1], s@));
                    assert(lex_leq(s@, pre[k2 - 1]));
                    lemma_lex_transitive(pre[k1], s@, pre[k2 - 1]);
                }
            }
            assert(vstd::relations::sorted_by(dv, leq));
            lemma_to_multiset_insert(pre, pos, s@);
            assert(v.deep_view().take(i + 1).drop_last() =~= v.deep_view().take(i as int));
            assert(v.deep_view().take(i + 1) =~= v.deep_view().take(i as int).push(s@));
        }
        i += 1;
    }
    proof {
        assert(v.deep_view().take(v.len() as int) =~= v.deep_view());
    }
    out
}

/// Split `s` into its lines.
pub fn split_to_lines(s: &str) -> (r: Vec<String>)
    ensures
        r.deep_view() == split_lines(s@),
{
    let mut out: Vec<String> = Vec::new();
    let mut rest: &str = s;
    let ghost whole = s@;
    loop
        invariant
            whole == s@,
            out.deep_view() + split_lines(rest@) =~= split_lines(whole),
        decreases rest@.len(),
    {
        let n = rest.unicode_len();
        if n == 0 {
            proof {
                assert(split_lines(rest@) =~= Seq::<Seq<char>>::empty());
                assert(out.deep_view() =~= split_lines(whole));
            }
            return out;
        }
        proof {
            lemma_find_char_from(rest@, 0, '\n');
        }
        match find_char(rest, 0, '\n') {
            None => {
                let ghost pre = out.deep_view();
                out.push(rest.to_owned());
                proof {
                    assert(out.deep_view() =~= pre.push(rest@));
                    assert(split_lines(rest@) =~= seq![rest@]);
                    assert(pre.push(rest@) =~= pre + seq![rest@]);
                    assert(out.deep_view() =~= split_lines(whole));
                }
                return out;
            },
            Some(i) => {
                let ghost pre = out.deep_view();
                let line = rest.substring_char(0, i);
                out.push(line.to_owned());
                let ghost old_rest = rest@;
                rest = rest.substring_char(i + 1, n);
                proof {
                    assert(split_lines(old_rest) =~= seq![old_rest.subrange(0, i as int)]
                        + split_lines(old_rest.subrange(i + 1, old_rest.len() as int)));
                    assert(out.deep_view() =~= pre.push(old_rest.subrange(0, i as int)));
                    assert(out.deep_view() + split_lines(rest@) =~= pre + split_lines(old_rest));
                }
            },
        }
    }
}

/// Join the elements of `v` with the separator `sep`.
pub fn join_strings(v: &Vec<String>, sep: &str) -> (r: String)
    ensures
        r@ == join_seqs(v.deep_view(), sep@),
{
    let mut out = String::new();
    let mut i: usize = 0;
    while i < v.len()
        invariant
            0 <= i <= v.len(),
            out@ == join_seqs(v.deep_view().take(i as int), sep@),
        decreases v.len() - i,
    {
        proof {
            lemma_join_seqs_push(v.deep_view().take(i as int), v.deep_view()[i as int], sep@);
            assert(v.deep_view().take(i as int).push(v.deep_view()[i as int]) =~= v.deep_view()
                .take(i + 1));
        }
        if i > 0 {
            out.append(sep);
        }
        out.append(v[i].as_str());
        i += 1;
    }
    proof {
        assert(v.deep_view().take(v.len() as int) =~= v.deep_view());
    }
    out
}

/// Render `v` as text, every line closed by a line feed.
pub fn join_lines_terminated(v: &Vec<String>) -> (r: String)
    ensures
        r@ == terminated_text(v.deep_view()),
{
    let mut out = String::new();
    let mut i: usize = 0;
    while i < v.len()
        invariant
            0 <= i <= v.len(),
            out@ == terminated_text(v.deep_view().take(i as int)),
        decreases v.len() - i,
    {
        proof {
            lemma_terminated_text_push(v.deep_view().take(i as int), v.deep_view()[i as int]);
            assert(v.deep_view().take(i as int).push(v.deep_view()[i as int]) =~= v.deep_view()
                .take(i + 1));
        }
        out.append(v[i].as_str());
        out.append("\n");
        proof {
            reveal_strlit("\n");
            assert("\n"@ =~= seq!['\n']);
        }
        i += 1;
    }
    proof {
        assert(v.deep_view().take(v.len() as int) =~= v.deep_view());
    }
    out
}

/// Find the first occurrence of `pat` in `s` at or after `from`.
pub fn find_pat(s: &str, from: usize, pat: &str) -> (r: Option<usize>)
    requires
        from <= s@.len(),
    ensures
        match r {
            Some(j) => find_at(s@, from as int, pat@) == Some(j as int) && from <= j
                && j + pat@.len() <= s@.len(),
            None => find_at(s@, from as int, pat@) is None,
        },
{
    let n = s.unicode_len();
    let m = pat.unicode_len();
    let mut i = from;
    while m <= n - i
        invariant
            from <= i <= n,
            n == s@.len(),
            m == pat@.len(),
            find_at(s@, from as int, pat@) == find_at(s@, i as int, pat@),
        decreases n - i,
    {
        if has_at(s, i, pat) {
            return Some(i);
        }
        i += 1;
    }
    None
}

} // verus!
