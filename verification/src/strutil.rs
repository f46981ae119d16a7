//! Character-level string helpers shared by the whole library.
//!
//! Everything here is verified against specifications phrased over the
//! `Seq<char>` view of strings, so the higher modules can state their own
//! contracts directly in terms of the characters a string holds.

use vstd::prelude::*;
use vstd::string::StrSliceExecFns;
use vstd::string::StringExecFns;
use vstd::multiset::Multiset;

verus! {

/// Relies on `String::push`: appends exactly one character at the end.
#[verifier::external_body]
pub(crate) fn push_char(s: &mut String, c: char)
    ensures
        final(s)@ == old(s)@.push(c),
{
    s.push(c);
}

pub open spec fn seq_contains_char(s: Seq<char>, c: char) -> bool {
    exists|i: int| 0 <= i < s.len() && s[i] == c
}

/// Whether `s` holds character `c` anywhere.
pub fn contains_char(s: &str, c: char) -> (r: bool)
    ensures
        r == seq_contains_char(s@, c),
{
    let n: usize = s.unicode_len();
    let mut i: usize = 0;
    while i < n
        invariant
            n == s@.len(),
            0 <= i <= n,
            forall|j: int| 0 <= j < i ==> s@[j] != c,
        decreases n - i,
    {
        if s.get_char(i) == c {
            return true;
        }
        i = i + 1;
    }
    false
}

/// Character-wise string equality, stated over the views.
pub fn str_eq(a: &str, b: &str) -> (r: bool)
    ensures
        r == (a@ == b@),
{
    let na: usize = a.unicode_len();
    let nb: usize = b.unicode_len();
    if na != nb {
        assert(a@ != b@) by {
            assert(a@.len() != b@.len());
        }
        return false;
    }
    let mut i: usize = 0;
    while i < na
        invariant
            na == a@.len(),
            na == b@.len(),
            0 <= i <= na,
            forall|j: int| 0 <= j < i ==> a@[j] == b@[j],
        decreases na - i,
    {
        if a.get_char(i) != b.get_char(i) {
            return false;
        }
        i = i + 1;
    }
    assert(a@ =~= b@);
    true
}

pub open spec fn starts_with_seq(s: Seq<char>, p: Seq<char>) -> bool {
    s.len() >= p.len() && s.subrange(0, p.len() as int) == p
}

pub open spec fn ends_with_seq(s: Seq<char>, p: Seq<char>) -> bool {
    s.len() >= p.len() && s.subrange(s.len() - p.len(), s.len() as int) == p
}

/// Whether `s` begins with the prefix `p`.
pub fn starts_with(s: &str, p: &str) -> (r: bool)
    ensures
        r == starts_with_seq(s@, p@),
{
    let ns: usize = s.unicode_len();
    let np: usize = p.unicode_len();
    if ns < np {
        return false;
    }
    let mut i: usize = 0;
    while i < np
        invariant
            ns == s@.len(),
            np == p@.len(),
            np <= ns,
            0 <= i <= np,
            forall|j: int| 0 <= j < i ==> s@[j] == p@[j],
        decreases np - i,
    {
        if s.get_char(i) != p.get_char(i) {
            assert(s@.subrange(0, np as int)[i as int] != p@[i as int]);
            return false;
        }
        i = i + 1;
    }
    assert(s@.subrange(0, np as int) =~= p@);
    true
}

/// Whether `s` ends with the suffix `p`.
pub fn ends_with(s: &str, p: &str) -> (r: bool)
    ensures
        r == ends_with_seq(s@, p@),
{
    let ns: usize = s.unicode_len();
    let np: usize = p.unicode_len();
    if ns < np {
        return false;
    }
    let base: usize = ns - np;
    let mut i: usize = 0;
    while i < np
        invariant
            ns == s@.len(),
            np == p@.len(),
            base == ns - np,
            0 <= i <= np,
            forall|j: int| 0 <= j < i ==> s@[base + j] == p@[j],
        decreases np - i,
    {
        if s.get_char(base + i) != p.get_char(i) {
            assert(s@.subrange(base as int, ns as int)[i as int] != p@[i as int]);
            return false;
        }
        i = i + 1;
    }
    assert(s@.subrange(base as int, ns as int) =~= p@);
    true
}

pub open spec fn has_substring_at(s: Seq<char>, sub: Seq<char>, i: int) -> bool {
    0 <= i && i + sub.len() <= s.len() && s.subrange(i, i + sub.len()) == sub
}

pub open spec fn has_substring(s: Seq<char>, sub: Seq<char>) -> bool {
    exists|i: int| has_substring_at(s, sub, i)
}

/// Whether `sub` occurs contiguously anywhere inside `s`.
pub fn contains_substring(s: &str, sub: &str) -> (r: bool)
    ensures
        r == has_substring(s@, sub@),
{
    let ns: usize = s.unicode_len();
    let np: usize = sub.unicode_len();
    if np > ns {
        return false;
    }
    if np == 0 {
        assert(s@.subrange(0, 0) =~= sub@);
        assert(has_substring_at(s@, sub@, 0));
        return true;
    }
    let mut i: usize = 0;
    while i <= ns - np
        invariant
            ns == s@.len(),
            np == sub@.len(),
            1 <= np <= ns,
            0 <= i <= ns - np + 1,
            forall|k: int| 0 <= k < i ==> !has_substring_at(s@, sub@, k),
        decreases ns - np + 1 - i,
    {
        let mut j: usize = 0;
        let mut matches: bool = true;
        while j < np
            invariant
                ns == s@.len(),
                np == sub@.len(),
                np <= ns,
                0 <= i <= ns - np,
                0 <= j <= np,
                matches ==> forall|k: int| 0 <= k < j ==> s@[i + k] == sub@[k],
                !matches ==> !has_substring_at(s@, sub@, i as int),
            decreases np - j,
        {
            if matches && s.get_char(i + j) != sub.get_char(j) {
                assert(s@.subrange(i as int, i + np as int)[j as int] != sub@[j as int]);
                matches = false;
            }
            j = j + 1;
        }
        if matches {
            assert(s@.subrange(i as int, i + np as int) =~= sub@);
            assert(has_substring_at(s@, sub@, i as int));
            return true;
        }
        i = i + 1;
    }
    false
}

pub open spec fn upper_char(c: char) -> char {
    if 'a' <= c && c <= 'z' {
        (((c as u8) - 32) as char)
    } else {
        c
    }
}

pub open spec fn upper_seq(s: Seq<char>) -> Seq<char> {
    Seq::new(s.len(), |i: int| upper_char(s[i]))
}

/// ASCII upper-casing of one character; other characters pass unchanged.
pub fn to_upper_char(c: char) -> (r: char)
    ensures
        r == upper_char(c),
{
    if 'a' <= c && c <= 'z' {
        ((c as u8) - 32) as char
    } else {
        c
    }
}

/// ASCII upper-casing of a whole string.
pub fn to_upper(s: &str) -> (r: String)
    ensures
        r@ == upper_seq(s@),
{
    let n: usize = s.unicode_len();
    let mut out: String = String::new();
    let mut i: usize = 0;
    while i < n
        invariant
            n == s@.len(),
            0 <= i <= n,
            out@ == upper_seq(s@).subrange(0, i as int),
        decreases n - i,
    {
        let c = to_upper_char(s.get_char(i));
        push_char(&mut out, c);
        assert(out@ =~= upper_seq(s@).subrange(0, i + 1));
        i = i + 1;
    }
    assert(out@ =~= upper_seq(s@));
    out
}

/// Lexicographic "less than or equal" over character code points; this is the
/// order every serializer of the library sorts by.
pub open spec fn lex_le(a: Seq<char>, b: Seq<char>) -> bool
    decreases a.len(),
{
    if a.len() == 0 {
        true
    } else if b.len() == 0 {
        false
    } else if a[0] < b[0] {
        true
    } else if a[0] > b[0] {
        false
    } else {
        lex_le(a.drop_first(), b.drop_first())
    }
}

/// Decides `lex_le` over two strings.
pub fn lex_le_exec(a: &str, b: &str) -> (r: bool)
    ensures
        r == lex_le(a@, b@),
{
    let na: usize = a.unicode_len();
    let nb: usize = b.unicode_len();
    let mut i: usize = 0;
    assert(a@.skip(0) =~= a@);
    assert(b@.skip(0) =~= b@);
    while i < na && i < nb
        invariant
            na == a@.len(),
            nb == b@.len(),
            0 <= i <= na,
            0 <= i <= nb,
            forall|j: int| 0 <= j < i ==> a@[j] == b@[j],
            lex_le(a@, b@) == lex_le(a@.skip(i as int), b@.skip(i as int)),
        decreases na - i,
    {
        let ca = a.get_char(i);
        let cb = b.get_char(i);
        if ca < cb {
            assert(a@.skip(i as int)[0] == ca && b@.skip(i as int)[0] == cb);
            return true;
        }
        if ca > cb {
            assert(a@.skip(i as int)[0] == ca && b@.skip(i as int)[0] == cb);
            return false;
        }
        assert(ca == cb);
        assert(a@.skip(i as int).drop_first() =~= a@.skip(i + 1));
        assert(b@.skip(i as int).drop_first() =~= b@.skip(i + 1));
        i = i + 1;
    }
    if i == na {
        assert(a@.skip(i as int).len() == 0);
        true
    } else {
        assert(b@.skip(i as int).len() == 0);
        assert(a@.skip(i as int).len() > 0);
        false
    }
}

/// The order is total: of two strings one is always below the other.
pub proof fn lemma_lex_le_total(a: Seq<char>, b: Seq<char>)
    ensures
        lex_le(a, b) || lex_le(b, a),
    decreases a.len(),
{
    if a.len() == 0 || b.len() == 0 {
    } else if a[0] == b[0] {
        lemma_lex_le_total(a.drop_first(), b.drop_first());
    }
}

/// The order is transitive.
pub proof fn lemma_lex_le_trans(a: Seq<char>, b: Seq<char>, c: Seq<char>)
    requires
        lex_le(a, b),
        lex_le(b, c),
    ensures
        lex_le(a, c),
    decreases a.len(),
{
    if a.len() == 0 {
    } else {
        if b.len() == 0 {
        } else if c.len() == 0 {
        } else {
            if a[0] == b[0] && b[0] == c[0] {
                lemma_lex_le_trans(a.drop_first(), b.drop_first(), c.drop_first());
            }
        }
    }
}

/// A sequence of strings in ascending lexicographic order.
pub open spec fn sorted_seqs(s: Seq<Seq<char>>) -> bool {
    forall|i: int, j: int| 0 <= i < j < s.len() ==> lex_le(s[i], s[j])
}

/// The order as a binary relation value, for vstd's sorting library.
pub open spec fn lex_leq() -> spec_fn(Seq<char>, Seq<char>) -> bool {
    |a: Seq<char>, b: Seq<char>| lex_le(a, b)
}

pub proof fn lemma_lex_le_refl(a: Seq<char>)
    ensures
        lex_le(a, a),
    decreases a.len(),
{
    if a.len() > 0 {
        lemma_lex_le_refl(a.drop_first());
    }
}

/// The order is antisymmetric: mutual order means equality.
pub proof fn lemma_lex_le_antisym(a: Seq<char>, b: Seq<char>)
    requires
        lex_le(a, b),
        lex_le(b, a),
    ensures
        a == b,
    decreases a.len(),
{
    if a.len() == 0 {
        assert(b.len() == 0);
        assert(a =~= b);
    } else {
        assert(b.len() > 0);
        assert(a[0] == b[0]);
        lemma_lex_le_antisym(a.drop_first(), b.drop_first());
        assert(a =~= seq![a[0]] + a.drop_first());
        assert(b =~= seq![b[0]] + b.drop_first());
    }
}

/// The lexicographic order is a total ordering in vstd's sense.
pub proof fn lemma_lex_total_ordering()
    ensures
        vstd::relations::total_ordering(lex_leq()),
{
    let r = lex_leq();
    assert forall|a: Seq<char>| #[trigger] r(a, a) by {
        lemma_lex_le_refl(a);
    }
    assert forall|a: Seq<char>, b: Seq<char>| #[trigger] r(a, b) && #[trigger] r(b, a)
        implies a == b by {
        lemma_lex_le_antisym(a, b);
    }
    assert forall|a: Seq<char>, b: Seq<char>, c: Seq<char>|
        #[trigger] r(a, b) && #[trigger] r(b, c) implies r(a, c) by {
        lemma_lex_le_trans(a, b, c);
    }
    assert forall|a: Seq<char>, b: Seq<char>| #[trigger] r(a, b) || #[trigger] r(b, a) by {
        lemma_lex_le_total(a, b);
    }
}

/// The sorted counterpart of a sequence of strings: ascending, and a
/// rearrangement of the input.
pub open spec fn sort_names(s: Seq<Seq<char>>) -> Seq<Seq<char>> {
    s.sort_by(lex_leq())
}

pub proof fn lemma_sort_names_properties(s: Seq<Seq<char>>)
    ensures
        sorted_seqs(sort_names(s)),
        sort_names(s).to_multiset() == s.to_multiset(),
        sort_names(s).len() == s.len(),
        forall|x: Seq<char>| s.contains(x) == #[trigger] sort_names(s).contains(x),
{
    broadcast use vstd::seq_lib::group_to_multiset_ensures;

    lemma_lex_total_ordering();
    s.lemma_sort_by_ensures(lex_leq());
    assert(sort_names(s).to_multiset().len() == s.to_multiset().len());
    assert(sort_names(s).len() == sort_names(s).to_multiset().len());
    assert(s.len() == s.to_multiset().len());
    assert(sorted_seqs(sort_names(s))) by {
        assert(vstd::relations::sorted_by(sort_names(s), lex_leq()));
        assert forall|i: int, j: int| 0 <= i < j < sort_names(s).len()
            implies lex_le(sort_names(s)[i], sort_names(s)[j]) by {
            assert(lex_leq()(sort_names(s)[i], sort_names(s)[j]));
        }
    }
    assert forall|x: Seq<char>| s.contains(x) == #[trigger] sort_names(s).contains(x) by {
        assert(s.contains(x) == s.to_multiset().contains(x));
        assert(sort_names(s).contains(x) == sort_names(s).to_multiset().contains(x));
    }
}

/// Sorts a vector of strings into ascending lexicographic order.
pub fn sorted_strings(v: &Vec<String>) -> (r: Vec<String>)
    ensures
        r.deep_view() == sort_names(v.deep_view()),
{
    broadcast use vstd::seq_lib::group_to_multiset_ensures;

    let n: usize = v.len();
    let mut out: Vec<String> = Vec::new();
    proof {
        assert(out.deep_view() =~= Seq::<Seq<char>>::empty());
        assert(v.deep_view().take(0) =~= Seq::<Seq<char>>::empty());
    }
    let mut idx: usize = 0;
    while idx < n
        invariant
            n == v@.len(),
            0 <= idx <= n,
            sorted_seqs(out.deep_view()),
            out.deep_view().to_multiset() == v.deep_view().take(idx as int).to_multiset(),
        decreases n - idx,
    {
        let x: String = v[idx].clone();
        assert(x@ == v.deep_view()[idx as int]);
        let m: usize = out.len();
        let mut pos: usize = 0;
        while pos < m && !lex_le_exec(x.as_str(), out[pos].as_str())
            invariant
                m == out@.len(),
                0 <= pos <= m,
                x@ == v.deep_view()[idx as int],
                forall|k: int| 0 <= k < pos ==> !lex_le(x@, out.deep_view()[k]),
            decreases m - pos,
        {
            pos = pos + 1;
        }
        proof {
            let dv = out.deep_view();
            let dv2 = dv.insert(pos as int, x@);
            assert forall|i: int, j: int| 0 <= i < j < dv2.len() implies lex_le(dv2[i], dv2[j]) by {
                lemma_lex_le_total(x@, dv2[j]);
                lemma_lex_le_total(dv2[i], x@);
                if i < pos && j == pos {
                    assert(dv2[i] == dv[i]);
                    assert(!lex_le(x@, dv[i]));
                    assert(lex_le(dv[i], x@));
                } else if i == pos && j > pos {
                    assert(dv2[j] == dv[j - 1]);
                    if pos < dv.len() {
                        if j - 1 == pos {
                            assert(dv2[j] == dv[pos as int]);
                        } else {
                            assert(lex_le(dv[pos as int], dv[j - 1]));
                            lemma_lex_le_trans(x@, dv[pos as int], dv[j - 1]);
                        }
                        assert(lex_le(x@, dv[pos as int]));
                    }
                } else if i < pos && j > pos {
                    assert(dv2[i] == dv[i] && dv2[j] == dv[j - 1]);
                    assert(lex_le(dv[i], dv[j - 1]));
                } else if j < pos {
                    assert(dv2[i] == dv[i] && dv2[j] == dv[j]);
                } else if i > pos {
                    assert(dv2[i] == dv[i - 1] && dv2[j] == dv[j - 1]);
                }
            }
        }
        let ghost old_out_dv = out.deep_view();
        let ghost xv = x@;
        out.insert(pos, x);
        proof {
            assert(out.deep_view() =~= old_out_dv.insert(pos as int, xv));
            lemma_to_multiset_insert(old_out_dv, pos as int, xv);
            assert(out.deep_view().to_multiset() == old_out_dv.to_multiset().insert(xv));
            assert(v.deep_view().take(idx + 1) =~= v.deep_view().take(idx as int).push(xv));
            vstd::seq_lib::to_multiset_build(v.deep_view().take(idx as int), xv);
        }
        idx = idx + 1;
    }
    proof {
        assert(v.deep_view().take(n as int) =~= v.deep_view());
        lemma_lex_total_ordering();
        v.deep_view().lemma_sort_by_ensures(lex_leq());
        assert(vstd::relations::sorted_by(out.deep_view(), lex_leq())) by {
            assert forall|i: int, j: int| 0 <= i < j < out.deep_view().len()
                implies #[trigger] lex_leq()(out.deep_view()[i], out.deep_view()[j]) by {
                assert(lex_le(out.deep_view()[i], out.deep_view()[j]));
            }
        }
        vstd::seq_lib::lemma_sorted_unique(
            out.deep_view(),
            sort_names(v.deep_view()),
            lex_leq(),
        );
    }
    out
}

/// Inserting into the middle of a sequence adds exactly that element to its
/// multiset.
pub proof fn lemma_to_multiset_insert(s: Seq<Seq<char>>, i: int, x: Seq<char>)
    requires
        0 <= i <= s.len(),
    ensures
        s.insert(i, x).to_multiset() == s.to_multiset().insert(x),
{
    broadcast use vstd::seq_lib::group_to_multiset_ensures;

    let t = s.insert(i, x);
    assert(t =~= s.take(i) + seq![x] + s.skip(i));
    assert(s =~= s.take(i) + s.skip(i));
    vstd::seq_lib::lemma_multiset_commutative(s.take(i) + seq![x], s.skip(i));
    vstd::seq_lib::lemma_multiset_commutative(s.take(i), seq![x]);
    vstd::seq_lib::lemma_multiset_commutative(s.take(i), s.skip(i));
    assert(seq![x].to_multiset() =~= Multiset::<Seq<char>>::empty().insert(x)) by {
        assert(seq![x].drop_first() =~= Seq::<Seq<char>>::empty());
    }
    assert(t.to_multiset() =~= s.to_multiset().insert(x)) by {
        assert(t.to_multiset() == s.take(i).to_multiset().add(
            Multiset::<Seq<char>>::empty().insert(x),
        ).add(s.skip(i).to_multiset()));
        assert(s.to_multiset() == s.take(i).to_multiset().add(s.skip(i).to_multiset()));
    }
}

/// The decimal digit character for one value below ten.
pub open spec fn dec_digit(d: int) -> char {
    ((48 + d) as u8) as char
}

/// The decimal rendering of a natural number, most significant digit first.
pub open spec fn dec_str(n: int) -> Seq<char>
    decreases n,
{
    if n < 10 {
        seq![dec_digit(n)]
    } else {
        dec_str(n / 10).push(dec_digit(n % 10))
    }
}

/// Renders a number in decimal.
pub fn usize_to_string(n: usize) -> (r: String)
    ensures
        r@ == dec_str(n as int),
    decreases n,
{
    if n < 10 {
        let mut out = String::new();
        push_char(&mut out, ((48 + n as u8)) as char);
        assert(out@ =~= dec_str(n as int));
        out
    } else {
        let mut out = usize_to_string(n / 10);
        let d: u8 = (n % 10) as u8;
        push_char(&mut out, (48 + d) as char);
        assert(out@ =~= dec_str(n as int));
        out
    }
}

/// The position of the last occurrence of `c` in `s`, or minus one.
pub open spec fn last_index_of(s: Seq<char>, c: char) -> int
    decreases s.len(),
{
    if s.len() == 0 {
        -1
    } else if s.last() == c {
        s.len() - 1
    } else {
        last_index_of(s.drop_last(), c)
    }
}

pub proof fn lemma_last_index_of(s: Seq<char>, c: char)
    ensures
        -1 <= last_index_of(s, c) < s.len(),
        last_index_of(s, c) >= 0 ==> s[last_index_of(s, c)] == c,
        forall|j: int| last_index_of(s, c) < j < s.len() ==> s[j] != c,
    decreases s.len(),
{
    if s.len() == 0 {
    } else if s.last() == c {
    } else {
        lemma_last_index_of(s.drop_last(), c);
        assert forall|j: int| last_index_of(s, c) < j < s.len() implies s[j] != c by {
            if j < s.len() - 1 {
                assert(s.drop_last()[j] == s[j]);
            }
        }
    }
}

/// The final component of a path: what follows the last separator.
pub open spec fn base_name_seq(s: Seq<char>) -> Seq<char> {
    s.subrange(last_index_of(s, '/') + 1, s.len() as int)
}

/// Returns the final component of a `/`-separated path.
pub fn base_name(s: &str) -> (r: String)
    ensures
        r@ == base_name_seq(s@),
{
    proof {
        lemma_last_index_of(s@, '/');
    }
    let n: usize = s.unicode_len();
    let mut i: usize = n;
    while i > 0
        invariant
            n == s@.len(),
            0 <= i <= n,
            forall|j: int| i <= j < n ==> s@[j] != '/',
        decreases i,
    {
        if s.get_char(i - 1) == '/' {
            assert(last_index_of(s@, '/') == i - 1) by {
                lemma_last_index_of(s@, '/');
                if last_index_of(s@, '/') > i - 1 {
                    assert(s@[last_index_of(s@, '/')] == '/');
                }
            }
            let piece = s.substring_char(i, n);
            assert(piece@ =~= base_name_seq(s@));
            return piece.to_owned();
        }
        i = i - 1;
    }
    assert(last_index_of(s@, '/') == -1) by {
        lemma_last_index_of(s@, '/');
        if last_index_of(s@, '/') >= 0 {
            assert(s@[last_index_of(s@, '/')] == '/');
        }
    }
    let whole = s.substring_char(0, n);
    assert(whole@ =~= base_name_seq(s@));
    whole.to_owned()
}

pub open spec fn sep_to_dot(c: char) -> char {
    if c == '/' || c == '\\' {
        '.'
    } else {
        c
    }
}

pub open spec fn seps_to_dots(s: Seq<char>) -> Seq<char> {
    Seq::new(s.len(), |i: int| sep_to_dot(s[i]))
}

/// Rewrites every path separator to a dot.
pub fn replace_seps_with_dots(s: &str) -> (r: String)
    ensures
        r@ == seps_to_dots(s@),
{
    let n: usize = s.unicode_len();
    let mut out = String::new();
    let mut i: usize = 0;
    while i < n
        invariant
            n == s@.len(),
            0 <= i <= n,
            out@ == seps_to_dots(s@).subrange(0, i as int),
        decreases n - i,
    {
        let c = s.get_char(i);
        if c == '/' || c == '\\' {
            push_char(&mut out, '.');
        } else {
            push_char(&mut out, c);
        }
        assert(out@ =~= seps_to_dots(s@).subrange(0, i + 1));
        i = i + 1;
    }
    assert(out@ =~= seps_to_dots(s@));
    out
}

/// The string without `suffix` if it ends with it, else unchanged.
pub open spec fn strip_suffix_seq(s: Seq<char>, suffix: Seq<char>) -> Seq<char> {
    if ends_with_seq(s, suffix) {
        s.subrange(0, s.len() - suffix.len())
    } else {
        s
    }
}

/// Removes one trailing occurrence of `suffix`, if present.
pub fn strip_suffix(s: &str, suffix: &str) -> (r: String)
    ensures
        r@ == strip_suffix_seq(s@, suffix@),
{
    let n: usize = s.unicode_len();
    let m: usize = suffix.unicode_len();
    if ends_with(s, suffix) {
        let piece = s.substring_char(0, n - m);
        piece.to_owned()
    } else {
        s.to_owned()
    }
}

/// Whether a vector of strings holds one equal to `x`.
pub fn vec_contains_str(v: &Vec<String>, x: &str) -> (r: bool)
    ensures
        r == v.deep_view().contains(x@),
{
    let n: usize = v.len();
    let mut i: usize = 0;
    while i < n
        invariant
            n == v@.len(),
            0 <= i <= n,
            forall|j: int| 0 <= j < i ==> v.deep_view()[j] != x@,
        decreases n - i,
    {
        if str_eq(v[i].as_str(), x) {
            assert(v.deep_view()[i as int] == x@);
            return true;
        }
        i = i + 1;
    }
    assert(!v.deep_view().contains(x@));
    false
}

/// No string occurs twice.
pub open spec fn no_dup_seqs(v: Seq<Seq<char>>) -> bool {
    forall|i: int, j: int| 0 <= i < j < v.len() ==> v[i] != v[j]
}

/// Adds `x` unless an equal string is already present, keeping set semantics.
pub fn push_unique(v: &mut Vec<String>, x: String)
    ensures
        old(v).deep_view().contains(x@) ==> final(v).deep_view() == old(v).deep_view(),
        !old(v).deep_view().contains(x@) ==> final(v).deep_view() == old(v).deep_view().push(x@),
        no_dup_seqs(old(v).deep_view()) ==> no_dup_seqs(final(v).deep_view()),
{
    if !vec_contains_str(v, x.as_str()) {
        let ghost old_dv = v.deep_view();
        let ghost xv = x@;
        v.push(x);
        assert(v.deep_view() =~= old_dv.push(xv));
        assert(no_dup_seqs(old_dv) ==> no_dup_seqs(v.deep_view())) by {
            if no_dup_seqs(old_dv) {
                assert forall|i: int, j: int| 0 <= i < j < v.deep_view().len()
                    implies v.deep_view()[i] != v.deep_view()[j] by {
                    if j == old_dv.len() {
                        assert(!old_dv.contains(xv));
                        assert(v.deep_view()[i] == old_dv[i]);
                    }
                }
            }
        }
    } else {
        assert(v.deep_view() =~= old(v).deep_view());
    }
}

/// The directory part of a path: what precedes the last separator.
pub open spec fn parent_dir_seq(s: Seq<char>) -> Seq<char> {
    if last_index_of(s, '/') >= 0 {
        s.subrange(0, last_index_of(s, '/'))
    } else {
        Seq::empty()
    }
}

/// Returns the directory part of a `/`-separated path, or an empty string.
pub fn parent_dir_of(s: &str) -> (r: String)
    ensures
        r@ == parent_dir_seq(s@),
{
    proof {
        lemma_last_index_of(s@, '/');
    }
    let n: usize = s.unicode_len();
    let mut i: usize = n;
    while i > 0
        invariant
            n == s@.len(),
            0 <= i <= n,
            forall|j: int| i <= j < n ==> s@[j] != '/',
        decreases i,
    {
        if s.get_char(i - 1) == '/' {
            assert(last_index_of(s@, '/') == i - 1) by {
                lemma_last_index_of(s@, '/');
                if last_index_of(s@, '/') > i - 1 {
                    assert(s@[last_index_of(s@, '/')] == '/');
                }
            }
            let piece = s.substring_char(0, i - 1);
            assert(piece@ =~= parent_dir_seq(s@));
            return piece.to_owned();
        }
        i = i - 1;
    }
    assert(last_index_of(s@, '/') == -1) by {
        lemma_last_index_of(s@, '/');
        if last_index_of(s@, '/') >= 0 {
            assert(s@[last_index_of(s@, '/')] == '/');
        }
    }
    let out = String::new();
    assert(out@ =~= parent_dir_seq(s@));
    out
}

/// A path relative to a root: the root prefix and one following separator
/// removed, where they are present.
pub open spec fn relative_to_seq(path: Seq<char>, root: Seq<char>) -> Seq<char> {
    if root.len() > 0 && starts_with_seq(path, root) {
        let rest = path.skip(root.len() as int);
        if rest.len() > 0 && rest[0] == '/' {
            rest.skip(1)
        } else if rest.len() == 0 || root.last() == '/' {
            rest
        } else {
            path
        }
    } else {
        path
    }
}

/// Strips the project root from a path.
pub fn relative_to(path: &str, root: &str) -> (r: String)
    ensures
        r@ == relative_to_seq(path@, root@),
{
    let np: usize = path.unicode_len();
    let nr: usize = root.unicode_len();
    if nr > 0 && starts_with(path, root) {
        if np > nr && path.get_char(nr) == '/' {
            let piece = path.substring_char(nr + 1, np);
            assert(piece@ =~= relative_to_seq(path@, root@)) by {
                assert(path@.skip(nr as int)[0] == path@[nr as int]);
                assert(piece@ =~= path@.skip(nr as int).skip(1));
            }
            piece.to_owned()
        } else if np == nr {
            let out = String::new();
            assert(out@ =~= relative_to_seq(path@, root@));
            out
        } else if root.get_char(nr - 1) == '/' {
            let piece = path.substring_char(nr, np);
            assert(piece@ =~= relative_to_seq(path@, root@)) by {
                assert(root@.last() == root@[nr - 1]);
                assert(path@.skip(nr as int)[0] == path@[nr as int]);
            }
            piece.to_owned()
        } else {
            assert(path@.skip(nr as int)[0] == path@[nr as int]);
            assert(root@.last() == root@[nr - 1]);
            path.to_owned()
        }
    } else {
        path.to_owned()
    }
}

/// The strings joined with a separator between neighbours.
pub open spec fn join_with(parts: Seq<Seq<char>>, sep: Seq<char>) -> Seq<char>
    decreases parts,
{
    if parts.len() == 0 {
        Seq::empty()
    } else if parts.len() == 1 {
        parts[0]
    } else {
        join_with(parts.drop_last(), sep) + sep + parts.last()
    }
}

/// Joins strings with a separator.
pub fn join_strings(parts: &Vec<String>, sep: &str) -> (r: String)
    ensures
        r@ == join_with(parts.deep_view(), sep@),
{
    let n: usize = parts.len();
    let mut out = String::new();
    if n == 0 {
        assert(out@ =~= join_with(parts.deep_view(), sep@));
        return out;
    }
    out = out.concat(parts[0].as_str());
    proof {
        assert(parts.deep_view().take(1).len() == 1);
        assert(parts.deep_view().take(1)[0] == parts.deep_view()[0]);
        assert(out@ =~= join_with(parts.deep_view().take(1), sep@));
    }
    let mut i: usize = 1;
    while i < n
        invariant
            n == parts@.len(),
            1 <= i <= n,
            out@ == join_with(parts.deep_view().take(i as int), sep@),
        decreases n - i,
    {
        out = out.concat(sep);
        out = out.concat(parts[i].as_str());
        proof {
            let dv = parts.deep_view();
            assert(dv.take(i + 1).drop_last() =~= dv.take(i as int));
            assert(dv.take(i + 1).last() == dv[i as int]);
            assert(dv.take(i + 1).len() == i + 1 >= 2);
            assert(out@ =~= join_with(dv.take(i + 1), sep@));
        }
        i = i + 1;
    }
    proof {
        assert(parts.deep_view().take(n as int) =~= parts.deep_view());
    }
    out
}

} // verus!
