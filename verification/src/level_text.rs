//! The text format of Dr. Sudoku level files: blocks separated by a blank
//! line, each a title line followed by rows of whitespace-separated numbers.
use vstd::prelude::*;

verus! {

/// ASCII whitespace as `char::is_whitespace` sees it: tab, line feed,
/// vertical tab, form feed, carriage return and space.
pub open spec fn is_space(b: u8) -> bool {
    b == 32 || (9 <= b && b <= 13)
}

/// `s` without its leading whitespace.
pub open spec fn trim_start(s: Seq<u8>) -> Seq<u8>
    decreases s.len(),
{
    if s.len() > 0 && is_space(s[0]) {
        trim_start(s.drop_first())
    } else {
        s
    }
}

/// `s` without its trailing whitespace.
pub open spec fn trim_end(s: Seq<u8>) -> Seq<u8>
    decreases s.len(),
{
    if s.len() > 0 && is_space(s.last()) {
        trim_end(s.drop_last())
    } else {
        s
    }
}

/// `s` without leading and trailing whitespace.
pub open spec fn trim(s: Seq<u8>) -> Seq<u8> {
    trim_end(trim_start(s))
}

/// The first position of byte `b` in `s`.
pub open spec fn find_byte(s: Seq<u8>, b: u8) -> Option<int>
    decreases s.len(),
{
    if s.len() == 0 {
        None
    } else if s[0] == b {
        Some(0)
    } else {
        match find_byte(s.drop_first(), b) {
            Some(i) => Some(i + 1),
            None => None,
        }
    }
}

/// Whether a blank line separator (two line feeds) starts at position `i`.
pub open spec fn pair_at(s: Seq<u8>, i: int) -> bool {
    0 <= i && i + 1 < s.len() && s[i] == 10 && s[i + 1] == 10
}

/// The first position of two consecutive line feeds in `s`.
pub open spec fn find_pair(s: Seq<u8>) -> Option<int>
    decreases s.len(),
{
    if s.len() < 2 {
        None
    } else if pair_at(s, 0) {
        Some(0)
    } else {
        match find_pair(s.drop_first()) {
            Some(i) => Some(i + 1),
            None => None,
        }
    }
}

/// The pieces of `s` between blank line separators, left to right.
pub open spec fn blocks(s: Seq<u8>) -> Seq<Seq<u8>>
    decreases s.len(),
{
    match find_pair(s) {
        Some(i) => {
            proof {
                lemma_find_pair_range(s);
            }
            seq![s.take(i)] + blocks(s.skip(i + 2))
        },
        None => seq![s],
    }
}

/// `line` without a carriage return at its end.
pub open spec fn strip_cr(line: Seq<u8>) -> Seq<u8> {
    if line.len() > 0 && line.last() == 13 {
        line.drop_last()
    } else {
        line
    }
}

/// The lines of `t`: split at line feeds, a carriage return right before a
/// line feed dropped, and no empty last line after a final line feed.
pub open spec fn lines(t: Seq<u8>) -> Seq<Seq<u8>>
    decreases t.len(),
{
    if t.len() == 0 {
        seq![]
    } else {
        match find_byte(t, 10) {
            Some(i) => {
                proof {
                    lemma_find_byte_range(t, 10);
                }
                seq![strip_cr(t.take(i))] + lines(t.skip(i + 1))
            },
            None => seq![t],
        }
    }
}

/// The length of the run of non-whitespace bytes at the start of `s`.
pub open spec fn word_len(s: Seq<u8>) -> nat
    decreases s.len(),
{
    if s.len() == 0 || is_space(s[0]) {
        0
    } else {
        1 + word_len(s.drop_first())
    }
}

/// The maximal runs of non-whitespace bytes of `s`, left to right.
pub open spec fn words(s: Seq<u8>) -> Seq<Seq<u8>>
    decreases s.len(),
{
    if s.len() == 0 {
        seq![]
    } else if is_space(s[0]) {
        words(s.drop_first())
    } else {
        proof {
            lemma_word_len_range(s);
        }
        seq![s.take(word_len(s) as int)] + words(s.skip(word_len(s) as int))
    }
}

/// Whether every byte of `d` is a decimal digit.
pub open spec fn all_digits(d: Seq<u8>) -> bool {
    forall|i: int| 0 <= i < d.len() ==> 48 <= #[trigger] d[i] <= 57
}

/// The number written by the decimal digits `d`.
pub open spec fn digits_value(d: Seq<u8>) -> nat
    decreases d.len(),
{
    if d.len() == 0 {
        0
    } else {
        digits_value(d.drop_last()) * 10 + (d.last() - 48) as nat
    }
}

/// The `u32` that `w` spells as `u32::from_str` reads it: an optional `+`,
/// then at least one decimal digit and nothing else, with a value that fits.
pub open spec fn parse_u32(w: Seq<u8>) -> Option<u32> {
    let d = if w.len() > 0 && w[0] == 43 {
        w.drop_first()
    } else {
        w
    };
    if d.len() == 0 || !all_digits(d) || digits_value(d) > u32::MAX {
        None
    } else {
        Some(digits_value(d) as u32)
    }
}

/// The numbers of a list of words, if every word is one.
pub open spec fn parse_words(ws: Seq<Seq<u8>>) -> Option<Seq<u32>>
    decreases ws.len(),
{
    if ws.len() == 0 {
        Some(seq![])
    } else {
        match (parse_words(ws.drop_last()), parse_u32(ws.last())) {
            (Some(a), Some(x)) => Some(a.push(x)),
            _ => None,
        }
    }
}

/// The rows of numbers of a list of lines, if every word of every line is a number.
pub open spec fn parse_rows(ls: Seq<Seq<u8>>) -> Option<Seq<Seq<u32>>>
    decreases ls.len(),
{
    if ls.len() == 0 {
        Some(seq![])
    } else {
        match (parse_rows(ls.drop_last()), parse_words(words(ls.last()))) {
            (Some(a), Some(r)) => Some(a.push(r)),
            _ => None,
        }
    }
}

/// The grid of a block: the rows after its title line, if it has one.
pub open spec fn parse_block(b: Seq<u8>) -> Option<Seq<Seq<u32>>> {
    match find_byte(b, 10) {
        Some(i) => parse_rows(lines(b.skip(i + 1))),
        None => None,
    }
}

/// The grids of a list of blocks, if every block has one.
pub open spec fn parse_blocks(bs: Seq<Seq<u8>>) -> Option<Seq<Seq<Seq<u32>>>>
    decreases bs.len(),
{
    if bs.len() == 0 {
        Some(seq![])
    } else {
        match (parse_blocks(bs.drop_last()), parse_block(bs.last())) {
            (Some(a), Some(g)) => Some(a.push(g)),
            _ => None,
        }
    }
}

/// The grids written in a level file, or `None` where the file is malformed.
pub open spec fn level_grids(text: Seq<u8>) -> Option<Seq<Seq<Seq<u32>>>> {
    parse_blocks(blocks(trim(text)))
}

/// A found byte lies inside the sequence.
pub proof fn lemma_find_byte_range(s: Seq<u8>, b: u8)
    ensures
        find_byte(s, b) matches Some(i) ==> 0 <= i < s.len() && s[i] == b,
    decreases s.len(),
{
    if s.len() > 0 && s[0] != b {
        lemma_find_byte_range(s.drop_first(), b);
    }
}

/// A found separator lies inside the sequence.
pub proof fn lemma_find_pair_range(s: Seq<u8>)
    ensures
        find_pair(s) matches Some(i) ==> pair_at(s, i),
    decreases s.len(),
{
    if s.len() >= 2 && !pair_at(s, 0) {
        lemma_find_pair_range(s.drop_first());
    }
}

/// A word is no longer than the text it starts, and not empty when the
/// text starts with a non-whitespace byte.
pub proof fn lemma_word_len_range(s: Seq<u8>)
    ensures
        word_len(s) <= s.len(),
        s.len() > 0 && !is_space(s[0]) ==> word_len(s) >= 1,
    decreases s.len(),
{
    if s.len() > 0 && !is_space(s[0]) {
        lemma_word_len_range(s.drop_first());
    }
}

proof fn lemma_find_byte_first(s: Seq<u8>, b: u8, k: int)
    requires
        0 <= k <= s.len(),
        forall|j: int| 0 <= j < k ==> s[j] != b,
        k < s.len() ==> s[k] == b,
    ensures
        find_byte(s, b) == (if k < s.len() {
            Some(k)
        } else {
            None::<int>
        }),
    decreases k,
{
    if k > 0 {
        lemma_find_byte_first(s.drop_first(), b, k - 1);
    }
}

proof fn lemma_find_pair_first(s: Seq<u8>, k: int)
    requires
        0 <= k,
        forall|j: int| 0 <= j < k ==> !pair_at(s, j),
        pair_at(s, k) || k + 1 >= s.len(),
    ensures
        find_pair(s) == (if pair_at(s, k) {
            Some(k)
        } else {
            None::<int>
        }),
    decreases k,
{
    if s.len() >= 2 && k > 0 {
        assert(!pair_at(s, 0));
        let t = s.drop_first();
        assert forall|j: int| 0 <= j < k - 1 implies !pair_at(t, j) by {
            assert(!pair_at(s, j + 1));
        }
        lemma_find_pair_first(t, k - 1);
    }
}

proof fn lemma_word_len_first(s: Seq<u8>, k: int)
    requires
        0 <= k <= s.len(),
        forall|j: int| 0 <= j < k ==> !is_space(#[trigger] s[j]),
        k < s.len() ==> is_space(s[k]),
    ensures
        word_len(s) == k,
    decreases k,
{
    if k > 0 {
        lemma_word_len_first(s.drop_first(), k - 1);
    }
}

proof fn lemma_trim_start_at(s: Seq<u8>, a: int)
    requires
        0 <= a <= s.len(),
        forall|j: int| 0 <= j < a ==> is_space(#[trigger] s[j]),
        a < s.len() ==> !is_space(s[a]),
    ensures
        trim_start(s) == s.skip(a),
    decreases a,
{
    if a > 0 {
        lemma_trim_start_at(s.drop_first(), a - 1);
        assert(s.drop_first().skip(a - 1) =~= s.skip(a));
    } else {
        assert(s.skip(0) =~= s);
    }
}

proof fn lemma_trim_end_at(s: Seq<u8>, b: int)
    requires
        0 <= b <= s.len(),
        forall|j: int| b <= j < s.len() ==> is_space(#[trigger] s[j]),
        b > 0 ==> !is_space(s[b - 1]),
    ensures
        trim_end(s) == s.take(b),
    decreases s.len() - b,
{
    if b < s.len() {
        lemma_trim_end_at(s.drop_last(), b);
        assert(s.drop_last().take(b) =~= s.take(b));
    } else {
        assert(s.take(b) =~= s);
    }
}

/// The contents of a list of byte vectors.
pub open spec fn pieces(v: Seq<Vec<u8>>) -> Seq<Seq<u8>> {
    v.map_values(|p: Vec<u8>| p@)
}

/// Copies `s[a..b]` into a new vector.
fn copy_range(s: &[u8], a: usize, b: usize) -> (r: Vec<u8>)
    requires
        a <= b <= s@.len(),
    ensures
        r@ == s@.subrange(a as int, b as int),
{
    let mut r: Vec<u8> = Vec::new();
    let mut k: usize = a;
    while k < b
        invariant
            a <= k <= b,
            b <= s@.len(),
            r@ == s@.subrange(a as int, k as int),
        decreases b - k,
    {
        r.push(s[k]);
        assert(r@ =~= s@.subrange(a as int, k + 1));
        k = k + 1;
    }
    r
}

/// `s` without leading and trailing whitespace.
fn trimmed(s: &[u8]) -> (r: Vec<u8>)
    ensures
        r@ == trim(s@),
{
    let mut a: usize = 0;
    while a < s.len() && (s[a] == 32 || (9 <= s[a] && s[a] <= 13))
        invariant
            a <= s@.len(),
            forall|j: int| 0 <= j < a ==> is_space(#[trigger] s@[j]),
        decreases s@.len() - a,
    {
        a = a + 1;
    }
    proof {
        lemma_trim_start_at(s@, a as int);
    }
    let mut b: usize = s.len();
    while b > a && (s[b - 1] == 32 || (9 <= s[b - 1] && s[b - 1] <= 13))
        invariant
            a <= b <= s@.len(),
            forall|j: int| b <= j < s@.len() ==> is_space(#[trigger] s@[j]),
        decreases b,
    {
        b = b - 1;
    }
    let ghost t = s@.skip(a as int);
    proof {
        assert forall|j: int| b - a <= j < t.len() implies is_space(#[trigger] t[j]) by {
            assert(t[j] == s@[a + j]);
        }
        lemma_trim_end_at(t, b - a);
        assert(t.take(b - a) =~= s@.subrange(a as int, b as int));
    }
    copy_range(s, a, b)
}

/// The pieces of `s` between blank line separators, left to right.
fn split_blocks(s: &[u8]) -> (r: Vec<Vec<u8>>)
    ensures
        pieces(r@) == blocks(s@),
{
    let mut out: Vec<Vec<u8>> = Vec::new();
    let mut start: usize = 0;
    assert(s@.skip(0) =~= s@);
    assert(pieces(out@) =~= Seq::<Seq<u8>>::empty());
    assert(pieces(out@) + blocks(s@.skip(0)) =~= blocks(s@));
    loop
        invariant
            start <= s@.len(),
            pieces(out@) + blocks(s@.skip(start as int)) == blocks(s@),
        decreases s@.len() - start,
    {
        let ghost rest = s@.skip(start as int);
        let mut i: usize = start;
        while s.len() - i > 1 && !(s[i] == 10 && s[i + 1] == 10)
            invariant
                start <= i <= s@.len(),
                rest == s@.skip(start as int),
                forall|j: int| 0 <= j < i - start ==> !pair_at(rest, j),
            decreases s@.len() - i,
        {
            proof {
                assert(!pair_at(rest, i - start));
            }
            i = i + 1;
        }
        if s.len() - i > 1 {
            proof {
                assert(pair_at(rest, i - start));
                lemma_find_pair_first(rest, i - start);
                assert(rest.take(i - start) =~= s@.subrange(start as int, i as int));
                assert(rest.skip(i - start + 2) =~= s@.skip(i + 2));
            }
            let piece = copy_range(s, start, i);
            let ghost before = pieces(out@);
            out.push(piece);
            proof {
                assert(pieces(out@) =~= before.push(s@.subrange(start as int, i as int)));
                assert(pieces(out@) + blocks(s@.skip(i + 2)) =~= before + blocks(rest));
            }
            start = i + 2;
        } else {
            proof {
                assert(!pair_at(rest, i - start));
                lemma_find_pair_first(rest, i - start);
                assert(rest =~= s@.subrange(start as int, s@.len() as int));
            }
            let piece = copy_range(s, start, s.len());
            let ghost before = pieces(out@);
            out.push(piece);
            proof {
                assert(pieces(out@) =~= before + blocks(rest));
            }
            return out;
        }
    }
}

/// The lines of `t`, as `str::lines` splits them.
fn split_lines(t: &[u8]) -> (r: Vec<Vec<u8>>)
    ensures
        pieces(r@) == lines(t@),
{
    let mut out: Vec<Vec<u8>> = Vec::new();
    let mut start: usize = 0;
    assert(t@.skip(0) =~= t@);
    assert(pieces(out@) =~= Seq::<Seq<u8>>::empty());
    assert(pieces(out@) + lines(t@.skip(0)) =~= lines(t@));
    while start < t.len()
        invariant
            start <= t@.len(),
            pieces(out@) + lines(t@.skip(start as int)) == lines(t@),
        decreases t@.len() - start,
    {
        let ghost rest = t@.skip(start as int);
        let mut i: usize = start;
        while i < t.len() && t[i] != 10
            invariant
                start <= i <= t@.len(),
                rest == t@.skip(start as int),
                forall|j: int| 0 <= j < i - start ==> rest[j] != 10,
            decreases t@.len() - i,
        {
            i = i + 1;
        }
        proof {
            lemma_find_byte_first(rest, 10, i - start);
        }
        let ghost before = pieces(out@);
        if i < t.len() {
            let end = if i > start && t[i - 1] == 13 { i - 1 } else { i };
            proof {
                assert(rest.take(i - start) =~= t@.subrange(start as int, i as int));
                assert(strip_cr(rest.take(i - start)) =~= t@.subrange(start as int, end as int));
                assert(rest.skip(i - start + 1) =~= t@.skip(i + 1));
            }
            let piece = copy_range(t, start, end);
            out.push(piece);
            proof {
                assert(pieces(out@) =~= before.push(t@.subrange(start as int, end as int)));
                assert(pieces(out@) + lines(t@.skip(i + 1)) =~= before + lines(rest));
            }
            start = i + 1;
        } else {
            proof {
                assert(rest =~= t@.subrange(start as int, t@.len() as int));
            }
            let piece = copy_range(t, start, t.len());
            out.push(piece);
            proof {
                assert(pieces(out@) =~= before + lines(rest));
                assert(t@.skip(t@.len() as int) =~= Seq::<u8>::empty());
            }
            start = t.len();
        }
    }
    proof {
        assert(t@.skip(start as int) =~= Seq::<u8>::empty());
        assert(pieces(out@) + lines(t@.skip(start as int)) =~= pieces(out@));
    }
    out
}

/// The whitespace-separated words of `l`, as `str::split_whitespace` gives them.
fn split_words(l: &[u8]) -> (r: Vec<Vec<u8>>)
    ensures
        pieces(r@) == words(l@),
{
    let mut out: Vec<Vec<u8>> = Vec::new();
    let mut pos: usize = 0;
    assert(l@.skip(0) =~= l@);
    assert(pieces(out@) =~= Seq::<Seq<u8>>::empty());
    assert(pieces(out@) + words(l@.skip(0)) =~= words(l@));
    while pos < l.len()
        invariant
            pos <= l@.len(),
            pieces(out@) + words(l@.skip(pos as int)) == words(l@),
        decreases l@.len() - pos,
    {
        let ghost rest = l@.skip(pos as int);
        let ghost before = pieces(out@);
        if l[pos] == 32 || (9 <= l[pos] && l[pos] <= 13) {
            proof {
                assert(rest.drop_first() =~= l@.skip(pos + 1));
            }
            pos = pos + 1;
        } else {
            let mut e: usize = pos;
            while e < l.len() && !(l[e] == 32 || (9 <= l[e] && l[e] <= 13))
                invariant
                    pos <= e <= l@.len(),
                    rest == l@.skip(pos as int),
                    forall|j: int| 0 <= j < e - pos ==> !is_space(#[trigger] rest[j]),
                decreases l@.len() - e,
            {
                proof {
                    assert(!is_space(rest[e - pos]));
                }
                e = e + 1;
            }
            proof {
                lemma_word_len_first(rest, e - pos);
                assert(rest.take(e - pos) =~= l@.subrange(pos as int, e as int));
                assert(rest.skip(e - pos) =~= l@.skip(e as int));
            }
            let piece = copy_range(l, pos, e);
            out.push(piece);
            proof {
                assert(pieces(out@) =~= before.push(l@.subrange(pos as int, e as int)));
                assert(pieces(out@) + words(l@.skip(e as int)) =~= before + words(rest));
            }
            pos = e;
        }
    }
    proof {
        assert(l@.skip(pos as int) =~= Seq::<u8>::empty());
        assert(pieces(out@) + words(l@.skip(pos as int)) =~= pieces(out@));
    }
    out
}

proof fn lemma_digits_prefix(d: Seq<u8>, m: int)
    requires
        0 <= m <= d.len(),
    ensures
        digits_value(d.take(m)) <= digits_value(d),
    decreases d.len() - m,
{
    if m < d.len() {
        lemma_digits_prefix(d, m + 1);
        assert(d.take(m + 1).drop_last() =~= d.take(m));
    } else {
        assert(d.take(m) =~= d);
    }
}

/// Reads a word as `u32::from_str` does.
fn read_u32(w: &[u8]) -> (r: Option<u32>)
    ensures
        r == parse_u32(w@),
{
    let k: usize = if w.len() > 0 && w[0] == 43 { 1 } else { 0 };
    let ghost d = if w@.len() > 0 && w@[0] == 43 { w@.drop_first() } else { w@ };
    assert(d =~= w@.skip(k as int));
    if k == w.len() {
        return None;
    }
    let mut val: u64 = 0;
    let mut i: usize = k;
    while i < w.len()
        invariant
            k <= i <= w@.len(),
            d == w@.skip(k as int),
            d == (if w@.len() > 0 && w@[0] == 43 {
                w@.drop_first()
            } else {
                w@
            }),
            forall|j: int| 0 <= j < i - k ==> 48 <= #[trigger] d[j] <= 57,
            val == digits_value(d.take(i - k)),
            val <= u32::MAX,
        decreases w@.len() - i,
    {
        let c = w[i];
        assert(d[i - k] == c);
        if c < 48 || c > 57 {
            assert(!(48 <= d[i - k] <= 57));
            assert(!all_digits(d));
            return None;
        }
        proof {
            assert(d.take(i - k + 1).drop_last() =~= d.take(i - k));
        }
        val = val * 10 + (c - 48) as u64;
        assert(val == digits_value(d.take(i - k + 1)));
        if val > 4294967295 {
            proof {
                if all_digits(d) {
                    lemma_digits_prefix(d, i - k + 1);
                }
            }
            return None;
        }
        i = i + 1;
    }
    assert(d.take(i - k) =~= d);
    Some(val as u32)
}

/// The numbers of a line, if every word of it is one.
fn read_row(line: &[u8]) -> (r: Option<Vec<u32>>)
    ensures
        match r {
            Some(v) => parse_words(words(line@)) == Some(v@),
            None => parse_words(words(line@)) is None,
        },
{
    let ws = split_words(line);
    let ghost all = pieces(ws@);
    let mut out: Vec<u32> = Vec::new();
    let mut k: usize = 0;
    assert(all.take(0) =~= Seq::<Seq<u8>>::empty());
    while k < ws.len()
        invariant
            k <= ws@.len(),
            all == pieces(ws@),
            all == words(line@),
            parse_words(all.take(k as int)) == Some(out@),
        decreases ws@.len() - k,
    {
        proof {
            assert(all.take(k + 1).drop_last() =~= all.take(k as int));
        }
        match read_u32(ws[k].as_slice()) {
            Some(x) => {
                out.push(x);
            },
            None => {
                proof {
                    assert(all.take(k + 1).last() == all[k as int]);
                    lemma_parse_words_extends(all, k + 1);
                }
                return None;
            },
        }
        k = k + 1;
    }
    assert(all.take(k as int) =~= all);
    Some(out)
}

proof fn lemma_parse_words_extends(ws: Seq<Seq<u8>>, m: int)
    requires
        0 <= m <= ws.len(),
        parse_words(ws.take(m)) is None,
    ensures
        parse_words(ws) is None,
    decreases ws.len() - m,
{
    if m < ws.len() {
        assert(ws.take(m + 1).drop_last() =~= ws.take(m));
        lemma_parse_words_extends(ws, m + 1);
    } else {
        assert(ws.take(m) =~= ws);
    }
}

proof fn lemma_parse_rows_extends(ls: Seq<Seq<u8>>, m: int)
    requires
        0 <= m <= ls.len(),
        parse_rows(ls.take(m)) is None,
    ensures
        parse_rows(ls) is None,
    decreases ls.len() - m,
{
    if m < ls.len() {
        assert(ls.take(m + 1).drop_last() =~= ls.take(m));
        lemma_parse_rows_extends(ls, m + 1);
    } else {
        assert(ls.take(m) =~= ls);
    }
}

proof fn lemma_parse_blocks_extends(bs: Seq<Seq<u8>>, m: int)
    requires
        0 <= m <= bs.len(),
        parse_blocks(bs.take(m)) is None,
    ensures
        parse_blocks(bs) is None,
    decreases bs.len() - m,
{
    if m < bs.len() {
        assert(bs.take(m + 1).drop_last() =~= bs.take(m));
        lemma_parse_blocks_extends(bs, m + 1);
    } else {
        assert(bs.take(m) =~= bs);
    }
}

/// The rows of a grid.
pub open spec fn rows_view(g: Seq<Vec<u32>>) -> Seq<Seq<u32>> {
    g.map_values(|row: Vec<u32>| row@)
}

/// The grids of a list of grids.
pub open spec fn grids_view(g: Seq<Vec<Vec<u32>>>) -> Seq<Seq<Seq<u32>>> {
    g.map_values(|b: Vec<Vec<u32>>| rows_view(b@))
}

/// The grid of a block: the rows after its title line.
fn read_block(b: &[u8]) -> (r: Option<Vec<Vec<u32>>>)
    ensures
        match r {
            Some(g) => parse_block(b@) == Some(rows_view(g@)),
            None => parse_block(b@) is None,
        },
{
    let mut i: usize = 0;
    while i < b.len() && b[i] != 10
        invariant
            i <= b@.len(),
            forall|j: int| 0 <= j < i ==> b@[j] != 10,
        decreases b@.len() - i,
    {
        i = i + 1;
    }
    proof {
        lemma_find_byte_first(b@, 10, i as int);
    }
    if i == b.len() {
        return None;
    }
    let body = copy_range(b, i + 1, b.len());
    assert(body@ =~= b@.skip(i + 1));
    let ls = split_lines(body.as_slice());
    let ghost all = pieces(ls@);
    let mut out: Vec<Vec<u32>> = Vec::new();
    let mut k: usize = 0;
    assert(all.take(0) =~= Seq::<Seq<u8>>::empty());
    assert(rows_view(out@) =~= Seq::<Seq<u32>>::empty());
    while k < ls.len()
        invariant
            k <= ls@.len(),
            all == pieces(ls@),
            all == lines(body@),
            i < b@.len(),
            find_byte(b@, 10) == Some(i as int),
            body@ == b@.skip(i + 1),
            parse_rows(all.take(k as int)) == Some(rows_view(out@)),
        decreases ls@.len() - k,
    {
        proof {
            assert(all.take(k + 1).drop_last() =~= all.take(k as int));
        }
        match read_row(ls[k].as_slice()) {
            Some(row) => {
                let ghost before = rows_view(out@);
                out.push(row);
                assert(rows_view(out@) =~= before.push(row@));
            },
            None => {
                proof {
                    assert(all.take(k + 1).last() == all[k as int]);
                    lemma_parse_rows_extends(all, k + 1);
                }
                return None;
            },
        }
        k = k + 1;
    }
    assert(all.take(k as int) =~= all);
    Some(out)
}

/// Reads the grids of a level file: the text is trimmed and cut into blocks
/// at blank lines; each block's first line is a title, and each of its other
/// lines a row of whitespace-separated numbers. Returns `None` where the text
/// does not have this form: a block without a line after its title, or a word
/// that is not a `u32`.
pub fn parse_grids(text: &[u8]) -> (r: Option<Vec<Vec<Vec<u32>>>>)
    ensures
        match r {
            Some(g) => level_grids(text@) == Some(grids_view(g@)),
            None => level_grids(text@) is None,
        },
{
    let t = trimmed(text);
    let bs = split_blocks(t.as_slice());
    let ghost all = pieces(bs@);
    let mut out: Vec<Vec<Vec<u32>>> = Vec::new();
    let mut k: usize = 0;
    assert(all.take(0) =~= Seq::<Seq<u8>>::empty());
    assert(grids_view(out@) =~= Seq::<Seq<Seq<u32>>>::empty());
    while k < bs.len()
        invariant
            k <= bs@.len(),
            all == pieces(bs@),
            all == blocks(trim(text@)),
            parse_blocks(all.take(k as int)) == Some(grids_view(out@)),
        decreases bs@.len() - k,
    {
        proof {
            assert(all.take(k + 1).drop_last() =~= all.take(k as int));
        }
        match read_block(bs[k].as_slice()) {
            Some(g) => {
                let ghost before = grids_view(out@);
                out.push(g);
                assert(grids_view(out@) =~= before.push(rows_view(g@)));
            },
            None => {
                proof {
                    assert(all.take(k + 1).last() == all[k as int]);
                    lemma_parse_blocks_extends(all, k + 1);
                }
                return None;
            },
        }
        k = k + 1;
    }
    assert(all.take(k as int) =~= all);
    Some(out)
}

/// Whether the separator ` | ` starts at position `i`.
pub open spec fn bar_at(s: Seq<u8>, i: int) -> bool {
    0 <= i && i + 2 < s.len() && s[i] == 32 && s[i + 1] == 124 && s[i + 2] == 32
}

/// The first position of the separator ` | ` in `s`.
pub open spec fn find_bar(s: Seq<u8>) -> Option<int>
    decreases s.len(),
{
    if s.len() < 3 {
        None
    } else if bar_at(s, 0) {
        Some(0)
    } else {
        match find_bar(s.drop_first()) {
            Some(i) => Some(i + 1),
            None => None,
        }
    }
}

/// The first route node whose cell is `(id / 9, id % 9)`.
pub open spec fn node_of(blanks: Seq<(usize, usize)>, id: u32) -> Option<int>
    decreases blanks.len(),
{
    if blanks.len() == 0 {
        None
    } else if blanks.last() == ((id / 9) as usize, (id % 9) as usize) && node_of(
        blanks.drop_last(),
        id,
    ) is None {
        Some(blanks.len() - 1)
    } else {
        node_of(blanks.drop_last(), id)
    }
}

/// The route nodes of a list of cell numbers, if every word is a cell number
/// of a route node.
pub open spec fn route_nodes_of(ws: Seq<Seq<u8>>, blanks: Seq<(usize, usize)>) -> Option<Seq<usize>>
    decreases ws.len(),
{
    if ws.len() == 0 {
        Some(seq![])
    } else {
        match (route_nodes_of(ws.drop_last(), blanks), parse_u32(ws.last())) {
            (Some(a), Some(id)) => match node_of(blanks, id) {
                Some(k) => Some(a.push(k as usize)),
                None => None,
            },
            _ => None,
        }
    }
}

/// The route saved on line `level` of a solutions file, whose lines read
/// `COST | CELL CELL ...`: the start node followed by the nodes of the cells.
pub open spec fn saved_route(text: Seq<u8>, level: int, blanks: Seq<(usize, usize)>) -> Option<
    Seq<usize>,
> {
    if 0 <= level < lines(text).len() {
        let line = lines(text)[level];
        match find_bar(line) {
            Some(i) => match route_nodes_of(words(line.skip(i + 3)), blanks) {
                Some(r) => Some(seq![0usize] + r),
                None => None,
            },
            None => None,
        }
    } else {
        None
    }
}

proof fn lemma_find_bar_first(s: Seq<u8>, k: int)
    requires
        0 <= k,
        forall|j: int| 0 <= j < k ==> !bar_at(s, j),
        bar_at(s, k) || k + 2 >= s.len(),
    ensures
        find_bar(s) == (if bar_at(s, k) {
            Some(k)
        } else {
            None::<int>
        }),
    decreases k,
{
    if s.len() >= 3 && k > 0 {
        assert(!bar_at(s, 0));
        let t = s.drop_first();
        assert forall|j: int| 0 <= j < k - 1 implies !bar_at(t, j) by {
            assert(!bar_at(s, j + 1));
        }
        lemma_find_bar_first(t, k - 1);
    }
}

proof fn lemma_node_of_first(blanks: Seq<(usize, usize)>, id: u32, k: int)
    requires
        0 <= k <= blanks.len(),
        forall|j: int|
            0 <= j < k ==> #[trigger] blanks[j] != ((id / 9) as usize, (id % 9) as usize),
        k < blanks.len() ==> blanks[k] == ((id / 9) as usize, (id % 9) as usize),
    ensures
        node_of(blanks, id) == (if k < blanks.len() {
            Some(k)
        } else {
            None::<int>
        }),
    decreases blanks.len(),
{
    if blanks.len() > 0 {
        if k < blanks.len() - 1 {
            lemma_node_of_first(blanks.drop_last(), id, k);
        } else {
            lemma_node_of_first(blanks.drop_last(), id, blanks.len() - 1);
        }
    }
}

proof fn lemma_route_nodes_extends(ws: Seq<Seq<u8>>, blanks: Seq<(usize, usize)>, m: int)
    requires
        0 <= m <= ws.len(),
        route_nodes_of(ws.take(m), blanks) is None,
    ensures
        route_nodes_of(ws, blanks) is None,
    decreases ws.len() - m,
{
    if m < ws.len() {
        assert(ws.take(m + 1).drop_last() =~= ws.take(m));
        lemma_route_nodes_extends(ws, blanks, m + 1);
    } else {
        assert(ws.take(m) =~= ws);
    }
}

/// Reads the route saved for level `level` in a solutions file: line `level`
/// reads `COST | CELL CELL ...`, each cell numbered `9 * row + column`. The
/// route starts at the start node and then visits the node of each cell, in
/// order. Returns `None` where the line is missing, has no ` | `, or names a
/// cell that is not a route node.
pub fn parse_route(text: &[u8], level: usize, blanks: &[(usize, usize)]) -> (r: Option<Vec<usize>>)
    ensures
        match r {
            Some(route) => saved_route(text@, level as int, blanks@) == Some(route@),
            None => saved_route(text@, level as int, blanks@) is None,
        },
{
    let ls = split_lines(text);
    if level >= ls.len() {
        return None;
    }
    let line = ls[level].as_slice();
    assert(line@ == lines(text@)[level as int]);
    let mut i: usize = 0;
    while line.len() - i > 2 && !(line[i] == 32 && line[i + 1] == 124 && line[i + 2] == 32)
        invariant
            i <= line@.len(),
            forall|j: int| 0 <= j < i ==> !bar_at(line@, j),
        decreases line@.len() - i,
    {
        i = i + 1;
    }
    if line.len() - i <= 2 {
        proof {
            lemma_find_bar_first(line@, i as int);
        }
        return None;
    }
    proof {
        lemma_find_bar_first(line@, i as int);
    }
    let rest = copy_range(line, i + 3, line.len());
    assert(rest@ =~= line@.skip(i + 3));
    let ws = split_words(rest.as_slice());
    let ghost all = pieces(ws@);
    let mut nodes: Vec<usize> = Vec::new();
    let mut k: usize = 0;
    assert(all.take(0) =~= Seq::<Seq<u8>>::empty());
    while k < ws.len()
        invariant
            k <= ws@.len(),
            all == pieces(ws@),
            all == words(rest@),
            route_nodes_of(all.take(k as int), blanks@) == Some(nodes@),
            0 <= level < lines(text@).len(),
            line@ == lines(text@)[level as int],
            find_bar(line@) == Some(i as int),
            rest@ == line@.skip(i + 3),
        decreases ws@.len() - k,
    {
        proof {
            assert(all.take(k + 1).drop_last() =~= all.take(k as int));
            assert(all.take(k + 1).last() == all[k as int]);
        }
        let id = match read_u32(ws[k].as_slice()) {
            Some(id) => id,
            None => {
                proof {
                    lemma_route_nodes_extends(all, blanks@, k + 1);
                }
                return None;
            },
        };
        let cell = ((id / 9) as usize, (id % 9) as usize);
        let mut n: usize = 0;
        while n < blanks.len() && !(blanks[n].0 == cell.0 && blanks[n].1 == cell.1)
            invariant
                n <= blanks@.len(),
                cell == ((id / 9) as usize, (id % 9) as usize),
                forall|j: int| 0 <= j < n ==> #[trigger] blanks@[j] != cell,
            decreases blanks@.len() - n,
        {
            n = n + 1;
        }
        proof {
            lemma_node_of_first(blanks@, id, n as int);
        }
        if n == blanks.len() {
            proof {
                lemma_route_nodes_extends(all, blanks@, k + 1);
            }
            return None;
        }
        nodes.push(n);
        k = k + 1;
    }
    assert(all.take(k as int) =~= all);
    let mut route: Vec<usize> = vec![0];
    let mut m: usize = 0;
    while m < nodes.len()
        invariant
            m <= nodes@.len(),
            route@ == seq![0usize] + nodes@.take(m as int),
        decreases nodes@.len() - m,
    {
        route.push(nodes[m]);
        assert(route@ =~= seq![0usize] + nodes@.take(m + 1));
        m = m + 1;
    }
    assert(nodes@.take(m as int) =~= nodes@);
    Some(route)
}

} // verus!
