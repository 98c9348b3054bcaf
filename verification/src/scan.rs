//! Source-text analysis behind the model driver's compile and link verdicts.
//!
//! The model driver judges a shader source by two readings of its bytes:
//!
//! * a source compiles exactly when its curly braces are balanced
//!   ([`spec_balanced`]);
//! * the interface and uniform tables of a program are read off declaration
//!   statements. A statement is the text before each `;`; it declares a name
//!   under a qualifier keyword (`uniform`, `in`, `out`) when it has at least
//!   three whitespace-separated words, one of which is the keyword; the
//!   declared name is the statement's last word ([`spec_declared`]).
use vstd::prelude::*;

use vstd::slice::slice_subrange;

verus! {

/// The nesting change a byte contributes: `{` opens, `}` closes.
pub open spec fn spec_brace_delta(c: u8) -> int {
    if c == 123 {
        1
    } else if c == 125 {
        -1
    } else {
        0
    }
}

/// The brace-nesting depth after reading all of `s`.
pub open spec fn spec_depth(s: Seq<u8>) -> int
    decreases s.len(),
{
    if s.len() == 0 {
        0
    } else {
        spec_depth(s.drop_last()) + spec_brace_delta(s.last())
    }
}

/// Braces balance: the final depth is zero and no prefix closes an unopened
/// brace.
pub open spec fn spec_balanced(s: Seq<u8>) -> bool {
    &&& spec_depth(s) == 0
    &&& forall|i: int| 0 <= i <= s.len() ==> spec_depth(#[trigger] s.take(i)) >= 0
}

/// Whether the curly braces of `s` balance.
pub fn balanced(s: &[u8]) -> (r: bool)
    ensures
        r == spec_balanced(s@),
{
    let n = s.len();
    let mut depth: i128 = 0;
    let mut ok = true;
    let mut i: usize = 0;
    proof {
        assert(s@.take(0) =~= Seq::<u8>::empty());
    }
    while i < n
        invariant
            i <= n,
            n == s@.len(),
            depth == spec_depth(s@.take(i as int)),
            -(i as int) <= depth <= i as int,
            ok == forall|j: int| 0 <= j <= i ==> spec_depth(#[trigger] s@.take(j)) >= 0,
        decreases n - i,
    {
        let c = s[i];
        proof {
            assert(s@.take(i + 1 as int).drop_last() =~= s@.take(i as int));
            assert(s@.take(i + 1 as int).last() == s@[i as int]);
        }
        if c == 123 {
            depth = depth + 1;
        } else if c == 125 {
            depth = depth - 1;
        }
        if depth < 0 {
            ok = false;
        }
        i = i + 1;
        proof {
            assert forall|j: int| 0 <= j <= i implies (spec_depth(#[trigger] s@.take(j)) >= 0)
                == (if j < i { spec_depth(s@.take(j)) >= 0 } else { depth >= 0 }) by {}
        }
    }
    proof {
        assert(s@.take(n as int) =~= s@);
    }
    ok && depth == 0
}

/// Whether `s` holds an embedded null byte.
pub open spec fn spec_contains_nul(s: Seq<u8>) -> bool {
    exists|i: int| 0 <= i < s.len() && s[i] == 0
}

/// Whether `s` holds an embedded null byte, which the driver's
/// null-terminated strings cannot carry.
pub fn contains_nul(s: &[u8]) -> (r: bool)
    ensures
        r == spec_contains_nul(s@),
{
    let n = s.len();
    let mut i: usize = 0;
    while i < n
        invariant
            i <= n,
            n == s@.len(),
            forall|j: int| 0 <= j < i ==> s@[j] != 0,
        decreases n - i,
    {
        if s[i] == 0 {
            return true;
        }
        i = i + 1;
    }
    false
}

/// Whether a byte is blank: space, tab, carriage return or line feed.
pub open spec fn spec_is_space(c: u8) -> bool {
    c == 32 || c == 9 || c == 10 || c == 13
}

/// The length of the word at the head of `s`: the number of leading
/// non-blank bytes.
pub open spec fn spec_word_len(s: Seq<u8>) -> int
    decreases s.len(),
{
    if s.len() == 0 || spec_is_space(s[0]) {
        0
    } else {
        1 + spec_word_len(s.subrange(1, s.len() as int))
    }
}

/// The head word ends at the first blank byte, or at the end of the text.
pub proof fn lemma_word_len(s: Seq<u8>)
    ensures
        0 <= spec_word_len(s) <= s.len(),
        forall|j: int| 0 <= j < spec_word_len(s) ==> !spec_is_space(#[trigger] s[j]),
        spec_word_len(s) < s.len() ==> spec_is_space(s[spec_word_len(s)]),
    decreases s.len(),
{
    if s.len() > 0 && !spec_is_space(s[0]) {
        lemma_word_len(s.subrange(1, s.len() as int));
        assert forall|j: int| 1 <= j < s.len() implies s.subrange(1, s.len() as int)[j - 1] == s[j]
        by {}
    }
}

/// The whitespace-separated words of `s`, in order.
pub open spec fn spec_words(s: Seq<u8>) -> Seq<Seq<u8>>
    decreases s.len(),
    via spec_words_decreases
{
    if s.len() == 0 {
        Seq::empty()
    } else if spec_is_space(s[0]) {
        spec_words(s.subrange(1, s.len() as int))
    } else {
        seq![s.take(spec_word_len(s))] + spec_words(s.subrange(spec_word_len(s), s.len() as int))
    }
}

#[via_fn]
proof fn spec_words_decreases(s: Seq<u8>) {
    lemma_word_len(s);
}

/// There are no more words than bytes.
pub proof fn lemma_words_count(s: Seq<u8>)
    ensures
        spec_words(s).len() <= s.len(),
    decreases s.len(),
{
    if s.len() > 0 {
        if spec_is_space(s[0]) {
            lemma_words_count(s.subrange(1, s.len() as int));
        } else {
            lemma_word_len(s);
            lemma_words_count(s.subrange(spec_word_len(s), s.len() as int));
        }
    }
}

/// Whether the word list `ws` holds the word `w`.
pub open spec fn spec_has_word(ws: Seq<Seq<u8>>, w: Seq<u8>) -> bool {
    exists|i: int| 0 <= i < ws.len() && ws[i] == w
}

/// The name a statement declares under the qualifier `qual`, if any: the
/// statement's last word, provided it has at least three words and one of
/// them is `qual`.
pub open spec fn spec_decl_name(seg: Seq<u8>, qual: Seq<u8>) -> Option<Seq<u8>> {
    let ws = spec_words(seg);
    if ws.len() >= 3 && spec_has_word(ws, qual) {
        Some(ws.last())
    } else {
        None
    }
}

/// The index of the first statement separator `;` in `s`, or `-1`.
pub open spec fn spec_semi_idx(s: Seq<u8>) -> int
    decreases s.len(),
{
    if s.len() == 0 {
        -1
    } else if s[0] == 59 {
        0
    } else if spec_semi_idx(s.subrange(1, s.len() as int)) == -1 {
        -1
    } else {
        spec_semi_idx(s.subrange(1, s.len() as int)) + 1
    }
}

/// What `spec_semi_idx` returns: `-1` exactly when `s` holds no `;`,
/// otherwise the index of the first one.
pub proof fn lemma_semi_idx(s: Seq<u8>)
    ensures
        spec_semi_idx(s) == -1 ==> forall|i: int| 0 <= i < s.len() ==> s[i] != 59,
        spec_semi_idx(s) != -1 ==> {
            &&& 0 <= spec_semi_idx(s) < s.len()
            &&& s[spec_semi_idx(s)] == 59
            &&& forall|i: int| 0 <= i < spec_semi_idx(s) ==> s[i] != 59
        },
    decreases s.len(),
{
    if s.len() > 0 && s[0] != 59 {
        lemma_semi_idx(s.subrange(1, s.len() as int));
        assert forall|i: int| 1 <= i < s.len() implies s.subrange(1, s.len() as int)[i - 1] == s[i]
        by {}
    }
}

/// The `;`-terminated statements of `s`, in order; text after the last `;`
/// belongs to no statement.
pub open spec fn spec_segments(s: Seq<u8>) -> Seq<Seq<u8>>
    decreases s.len(),
    via spec_segments_decreases
{
    if spec_semi_idx(s) == -1 {
        Seq::empty()
    } else {
        seq![s.take(spec_semi_idx(s))] + spec_segments(
            s.subrange(spec_semi_idx(s) + 1, s.len() as int),
        )
    }
}

#[via_fn]
proof fn spec_segments_decreases(s: Seq<u8>) {
    lemma_semi_idx(s);
}

/// The names the statements `segs` declare under `qual`, appended to `acc`
/// in order of first occurrence, without duplicates.
pub open spec fn spec_collect(segs: Seq<Seq<u8>>, qual: Seq<u8>, acc: Seq<Seq<u8>>) -> Seq<Seq<u8>>
    decreases segs.len(),
{
    if segs.len() == 0 {
        acc
    } else {
        let acc2 = match spec_decl_name(segs[0], qual) {
            Some(name) => if spec_has_word(acc, name) {
                acc
            } else {
                acc.push(name)
            },
            None => acc,
        };
        spec_collect(segs.subrange(1, segs.len() as int), qual, acc2)
    }
}

/// The names `s` declares under `qual`, appended to `acc`.
pub open spec fn spec_declared_from(s: Seq<u8>, qual: Seq<u8>, acc: Seq<Seq<u8>>) -> Seq<Seq<u8>> {
    spec_collect(spec_segments(s), qual, acc)
}

/// The names `s` declares under `qual`, in order of first occurrence,
/// without duplicates.
pub open spec fn spec_declared(s: Seq<u8>, qual: Seq<u8>) -> Seq<Seq<u8>> {
    spec_declared_from(s, qual, Seq::empty())
}

/// Whether two byte slices hold the same bytes.
pub fn bytes_eq(a: &[u8], b: &[u8]) -> (r: bool)
    ensures
        r == (a@ == b@),
{
    if a.len() != b.len() {
        return false;
    }
    let n = a.len();
    let mut i: usize = 0;
    while i < n
        invariant
            i <= n,
            n == a@.len(),
            n == b@.len(),
            forall|j: int| 0 <= j < i ==> a@[j] == b@[j],
        decreases n - i,
    {
        if a[i] != b[i] {
            return false;
        }
        i = i + 1;
    }
    proof {
        assert(a@ =~= b@);
    }
    true
}

/// The byte sequences a list of name vectors holds, in order.
pub open spec fn spec_names_of(ns: Seq<Vec<u8>>) -> Seq<Seq<u8>> {
    Seq::new(ns.len(), |i: int| ns[i]@)
}

/// Whether the collected name list holds `w`.
pub fn has_name(names: &Vec<Vec<u8>>, w: &[u8]) -> (r: bool)
    ensures
        r == spec_has_word(spec_names_of(names@), w@),
{
    let n = names.len();
    let mut i: usize = 0;
    while i < n
        invariant
            i <= n,
            n == names@.len(),
            forall|j: int| 0 <= j < i ==> spec_names_of(names@)[j] != w@,
        decreases n - i,
    {
        if bytes_eq(names[i].as_slice(), w) {
            proof {
                assert(spec_names_of(names@)[i as int] == w@);
            }
            return true;
        }
        i = i + 1;
    }
    false
}

/// Copies `s[from..to]` into a fresh vector.
pub(crate) fn copy_range(s: &[u8], from: usize, to: usize) -> (r: Vec<u8>)
    requires
        from <= to <= s@.len(),
    ensures
        r@ == s@.subrange(from as int, to as int),
{
    let mut r: Vec<u8> = Vec::new();
    let mut i: usize = from;
    while i < to
        invariant
            from <= i <= to <= s@.len(),
            r@.len() == i - from,
            forall|j: int| 0 <= j < r@.len() ==> r@[j] == s@[from + j],
        decreases to - i,
    {
        r.push(s[i]);
        i = i + 1;
    }
    proof {
        assert(r@ =~= s@.subrange(from as int, to as int));
    }
    r
}

/// What one statement scan found: how many words, whether the qualifier
/// occurred, and where the last word stands in the scanned slice.
struct WordsInfo {
    count: usize,
    has_qual: bool,
    last_start: usize,
    last_end: usize,
}

/// Whether a byte is blank.
fn is_space(c: u8) -> (r: bool)
    ensures
        r == spec_is_space(c),
{
    c == 32 || c == 9 || c == 10 || c == 13
}

/// The length of the word starting at `from`.
fn word_len_at(s: &[u8], from: usize) -> (r: usize)
    requires
        from <= s@.len(),
    ensures
        r == spec_word_len(s@.subrange(from as int, s@.len() as int)),
        from + r <= s@.len(),
    decreases s@.len() - from,
{
    proof {
        lemma_word_len(s@.subrange(from as int, s@.len() as int));
    }
    if from == s.len() {
        return 0;
    }
    if is_space(s[from]) {
        return 0;
    }
    proof {
        assert(s@.subrange(from as int, s@.len() as int).subrange(
            1,
            s@.subrange(from as int, s@.len() as int).len() as int,
        ) =~= s@.subrange(from + 1 as int, s@.len() as int));
    }
    let rest = word_len_at(s, from + 1);
    rest + 1
}

/// A word list holds `q` exactly when its head is `q` or its tail holds `q`.
proof fn lemma_has_word_cons(w: Seq<u8>, ws: Seq<Seq<u8>>, q: Seq<u8>)
    ensures
        spec_has_word(seq![w] + ws, q) <==> (w == q || spec_has_word(ws, q)),
{
    let c = seq![w] + ws;
    if spec_has_word(c, q) {
        let i = choose|i: int| 0 <= i < c.len() && c[i] == q;
        if i == 0 {
            assert(w == q);
        } else {
            assert(ws[i - 1] == q);
        }
    }
    if w == q {
        assert(c[0] == q);
    }
    if spec_has_word(ws, q) {
        let i = choose|i: int| 0 <= i < ws.len() && ws[i] == q;
        assert(c[i + 1] == q);
    }
}

/// Scans the words of `s[from..]`, mirroring `spec_words`: their number,
/// whether one of them is `qual`, and where the last one stands.
fn scan_words(s: &[u8], from: usize, qual: &[u8]) -> (r: WordsInfo)
    requires
        from <= s@.len(),
    ensures
        r.count == spec_words(s@.subrange(from as int, s@.len() as int)).len(),
        r.has_qual == spec_has_word(spec_words(s@.subrange(from as int, s@.len() as int)), qual@),
        r.count > 0 ==> {
            &&& from <= r.last_start <= r.last_end <= s@.len()
            &&& s@.subrange(r.last_start as int, r.last_end as int) == spec_words(
                s@.subrange(from as int, s@.len() as int),
            ).last()
        },
    decreases s@.len() - from,
{
    let ghost t = s@.subrange(from as int, s@.len() as int);
    if from == s.len() {
        proof {
            assert(t =~= Seq::<u8>::empty());
        }
        return WordsInfo { count: 0, has_qual: false, last_start: from, last_end: from };
    }
    if is_space(s[from]) {
        proof {
            assert(t.subrange(1, t.len() as int) =~= s@.subrange(from + 1 as int, s@.len() as int));
        }
        return scan_words(s, from + 1, qual);
    }
    let wl = word_len_at(s, from);
    proof {
        lemma_word_len(t);
        assert(t.subrange(1, t.len() as int) =~= s@.subrange(from + 1 as int, s@.len() as int));
        assert(t.subrange(wl as int, t.len() as int) =~= s@.subrange(
            from + wl as int,
            s@.len() as int,
        ));
        assert(t.take(wl as int) =~= s@.subrange(from as int, from + wl as int));
        lemma_words_count(t.subrange(wl as int, t.len() as int));
    }
    let rest = scan_words(s, from + wl, qual);
    let ghost ws = spec_words(t.subrange(wl as int, t.len() as int));
    let ghost w = t.take(wl as int);
    proof {
        assert(spec_words(t) == seq![w] + ws);
        lemma_has_word_cons(w, ws, qual@);
    }
    let head = slice_subrange(s, from, from + wl);
    let has_qual = rest.has_qual || bytes_eq(head, qual);
    let count = rest.count + 1;
    if rest.count == 0 {
        proof {
            assert(spec_words(t).last() == w);
        }
        WordsInfo { count, has_qual, last_start: from, last_end: from + wl }
    } else {
        proof {
            assert(spec_words(t).last() == ws.last());
        }
        WordsInfo { count, has_qual, last_start: rest.last_start, last_end: rest.last_end }
    }
}

/// The index of the first `;` at or after `from`, if any.
fn find_semi(s: &[u8], from: usize) -> (r: Option<usize>)
    requires
        from <= s@.len(),
    ensures
        match r {
            Some(i) => {
                &&& from <= i < s@.len()
                &&& s@[i as int] == 59
                &&& forall|j: int| from <= j < i ==> s@[j] != 59
            },
            None => forall|j: int| from <= j < s@.len() ==> s@[j] != 59,
        },
{
    let n = s.len();
    let mut i: usize = from;
    while i < n
        invariant
            from <= i <= n,
            n == s@.len(),
            forall|j: int| from <= j < i ==> s@[j] != 59,
        decreases n - i,
    {
        if s[i] == 59 {
            return Some(i);
        }
        i = i + 1;
    }
    None
}

/// Appends to `acc` the names that the statements of `s[from..]` declare
/// under `qual`, mirroring `spec_collect` over `spec_segments`.
fn collect_into(s: &[u8], from: usize, qual: &[u8], acc: &mut Vec<Vec<u8>>)
    requires
        from <= s@.len(),
    ensures
        spec_names_of(final(acc)@) == spec_collect(
            spec_segments(s@.subrange(from as int, s@.len() as int)),
            qual@,
            spec_names_of(old(acc)@),
        ),
    decreases s@.len() - from,
{
    let ghost t = s@.subrange(from as int, s@.len() as int);
    proof {
        lemma_semi_idx(t);
    }
    let n = s.len();
    let i: usize;
    match find_semi(s, from) {
        None => {
            // no separator: no statement remains
            proof {
                assert forall|j: int| 0 <= j < t.len() implies t[j] != 59 by {
                    assert(t[j] == s@[from + j]);
                }
                assert(spec_semi_idx(t) == -1);
            }
            return;
        },
        Some(found) => {
            i = found;
        },
    }
    proof {
        // the separator found first is the one spec_semi_idx names
        assert(t[i - from] == s@[i as int]);
        assert(spec_semi_idx(t) != -1) by {
            if spec_semi_idx(t) == -1 {
                assert(t[i - from] != 59);
            }
        }
        let k = spec_semi_idx(t);
        assert forall|j: int| 0 <= j < i - from implies t[j] != 59 by {
            assert(t[j] == s@[from + j]);
        }
        if k < i - from {
            assert(t[k] != 59);
        }
        assert(k == i - from);
        assert(t.take(k) =~= s@.subrange(from as int, i as int));
        assert(t.subrange(k + 1, t.len() as int) =~= s@.subrange(i + 1 as int, s@.len() as int));
    }
    let ghost segs = spec_segments(t);
    let ghost seg = t.take(spec_semi_idx(t));
    proof {
        assert(segs == seq![seg] + spec_segments(t.subrange(spec_semi_idx(t) + 1, t.len() as int)));
        assert(segs[0] == seg);
        assert(segs.subrange(1, segs.len() as int) =~= spec_segments(
            t.subrange(spec_semi_idx(t) + 1, t.len() as int),
        ));
    }
    let segment = slice_subrange(s, from, i);
    proof {
        assert(segment@.subrange(0, segment@.len() as int) =~= segment@);
    }
    let info = scan_words(segment, 0, qual);
    if info.count >= 3 && info.has_qual {
        proof {
            assert(spec_decl_name(seg, qual@) == Some(spec_words(seg).last()));
        }
        let name = copy_range(segment, info.last_start, info.last_end);
        let ghost acc_before = acc@;
        if !has_name(acc, name.as_slice()) {
            acc.push(name);
            proof {
                assert(spec_names_of(acc@) =~= spec_names_of(acc_before).push(name@));
            }
        }
    } else {
        proof {
            assert(spec_decl_name(seg, qual@) == Option::<Seq<u8>>::None);
        }
    }
    collect_into(s, i + 1, qual, acc);
}

/// Appends to `acc` the names `source` declares under `qual`, keeping order
/// of first occurrence and skipping names already present.
pub fn declared_into(source: &[u8], qual: &[u8], acc: &mut Vec<Vec<u8>>)
    ensures
        spec_names_of(final(acc)@) == spec_declared_from(source@, qual@, spec_names_of(old(acc)@)),
{
    proof {
        assert(source@.subrange(0, source@.len() as int) =~= source@);
    }
    collect_into(source, 0, qual, acc);
}

/// The names `source` declares under `qual`, in order of first occurrence,
/// without duplicates.
pub fn declared(source: &[u8], qual: &[u8]) -> (r: Vec<Vec<u8>>)
    ensures
        spec_names_of(r@) == spec_declared(source@, qual@),
{
    let mut acc: Vec<Vec<u8>> = Vec::new();
    proof {
        assert(spec_names_of(acc@) =~= Seq::<Seq<u8>>::empty());
    }
    declared_into(source, qual, &mut acc);
    acc
}

} // verus!
