//! Splitting plain text into line-located chunks.

use vstd::prelude::*;

use crate::text::{
    byte_len, byte_len_exec, char_width, char_width_exec, chars_of, decimal, lemma_byte_len_concat,
    lemma_byte_len_ge_len, lines, lines_of, push_all, push_decimal, slice, split_char, string_of,
    is_ws, strip_cr, strip_cr_all, trim, trim_chars, trim_end, trim_start, views, word_count,
    word_count_exec,
};

verus! {

broadcast use vstd::seq::group_seq_axioms;

/// One chunk of a document: its position, text, line range (`L{a}` or
/// `L{a}-L{b}`, counted from 1) and number of whitespace-separated words.
#[derive(Debug, Clone, PartialEq)]
pub struct ChunkDraft {
    pub ord: i64,
    pub text: String,
    pub loc: String,
    pub token_count: i64,
}

/// The chunk size limit and the overlap of consecutive pieces of one long
/// line, both in UTF-8 bytes.
#[derive(Debug, Clone, Copy, PartialEq, Eq)]
pub struct ChunkerConfig {
    pub max_chars: usize,
    pub overlap_chars: usize,
}

impl Default for ChunkerConfig {
    fn default() -> (r: Self)
        ensures
            r.max_chars == 800,
            r.overlap_chars == 80,
    {
        ChunkerConfig { max_chars: 800, overlap_chars: 80 }
    }
}

/// The mathematical view of a chunk.
pub struct ChunkView {
    pub ord: i64,
    pub text: Seq<char>,
    pub loc: Seq<char>,
    pub token_count: i64,
}

impl View for ChunkDraft {
    type V = ChunkView;

    open spec fn view(&self) -> ChunkView {
        ChunkView { ord: self.ord, text: self.text@, loc: self.loc@, token_count: self.token_count }
    }
}

pub open spec fn chunk_views(v: Seq<ChunkDraft>) -> Seq<ChunkView> {
    v.map_values(|c: ChunkDraft| c@)
}

// ---------------------------------------------------------------------------
// Byte offsets inside a line
// ---------------------------------------------------------------------------

/// Byte offset `b` falls between two characters of `s` (or at an end).
pub open spec fn is_boundary(s: Seq<char>, b: nat) -> bool {
    exists|k: int| 0 <= k <= s.len() && byte_len(s.take(k)) == b
}

/// The index of the character that starts at byte offset `b`.
pub open spec fn char_at_byte(s: Seq<char>, b: nat) -> int {
    choose|k: int| 0 <= k <= s.len() && byte_len(s.take(k)) == b
}

/// The characters between byte offsets `a` and `b` (`&s[a..b]`).
pub open spec fn byte_slice(s: Seq<char>, a: nat, b: nat) -> Seq<char> {
    s.subrange(char_at_byte(s, a), char_at_byte(s, b))
}

pub proof fn lemma_prefix_bytes_strict(s: Seq<char>, k1: int, k2: int)
    requires
        0 <= k1 < k2 <= s.len(),
    ensures
        byte_len(s.take(k1)) < byte_len(s.take(k2)),
{
    assert(s.take(k2) =~= s.take(k1) + s.subrange(k1, k2));
    lemma_byte_len_concat(s.take(k1), s.subrange(k1, k2));
    lemma_byte_len_ge_len(s.subrange(k1, k2));
}

pub proof fn lemma_char_at_byte(s: Seq<char>, k: int)
    requires
        0 <= k <= s.len(),
    ensures
        is_boundary(s, byte_len(s.take(k))),
        char_at_byte(s, byte_len(s.take(k))) == k,
{
    let b = byte_len(s.take(k));
    assert(0 <= k <= s.len() && byte_len(s.take(k)) == b);
    let c = char_at_byte(s, b);
    if c < k {
        lemma_prefix_bytes_strict(s, c, k);
    }
    if k < c {
        lemma_prefix_bytes_strict(s, k, c);
    }
}

// ---------------------------------------------------------------------------
// Long lines
// ---------------------------------------------------------------------------

/// Where the piece after `[start, end)` begins: `max(end - overlap, start + 1)`.
pub open spec fn next_start(start: nat, end: nat, overlap: nat) -> nat {
    let back: nat = if end >= overlap {
        (end - overlap) as nat
    } else {
        0
    };
    if back >= start + 1 {
        back
    } else {
        start + 1
    }
}

/// The end of the piece starting at byte `start`.
pub open spec fn piece_end(total: nat, start: nat, max: nat) -> nat {
    if start + max <= total {
        start + max
    } else {
        total
    }
}

/// The pieces of a line longer than `max` bytes, starting at byte `start`:
/// windows of at most `max` bytes, each one starting `overlap` bytes before
/// the end of the previous one (and at least one byte after its start).
pub open spec fn long_line_pieces(line: Seq<char>, max: nat, overlap: nat, start: nat) -> Seq<
    Seq<char>,
>
    decreases byte_len(line) - start,
{
    let total = byte_len(line);
    if start >= total {
        seq![]
    } else {
        let end = piece_end(total, start, max);
        let piece = byte_slice(line, start, end);
        if end == total {
            seq![piece]
        } else {
            seq![piece] + long_line_pieces(line, max, overlap, next_start(start, end, overlap))
        }
    }
}

/// Every cut of `long_line_pieces` falls between two characters, so that no
/// slice panics.
pub open spec fn long_line_cuts_ok(line: Seq<char>, max: nat, overlap: nat, start: nat) -> bool
    decreases byte_len(line) - start,
{
    let total = byte_len(line);
    if start >= total {
        true
    } else {
        let end = piece_end(total, start, max);
        &&& is_boundary(line, start)
        &&& is_boundary(line, end)
        &&& (end == total || long_line_cuts_ok(
            line,
            max,
            overlap,
            next_start(start, end, overlap),
        ))
    }
}

/// The byte offset of every character of `line`, and of its end.
fn byte_offsets(line: &[char]) -> (offs: Vec<usize>)
    requires
        byte_len(line@) <= usize::MAX,
    ensures
        offs@.len() == line@.len() + 1,
        forall|k: int| 0 <= k <= line@.len() ==> #[trigger] offs@[k] == byte_len(line@.take(k)),
{
    let mut offs: Vec<usize> = Vec::new();
    offs.push(0);
    assert(line@.take(0) =~= Seq::<char>::empty());
    let mut n: usize = 0;
    let mut i: usize = 0;
    while i < line.len()
        invariant
            i <= line@.len(),
            byte_len(line@) <= usize::MAX,
            offs@.len() == i + 1,
            n == byte_len(line@.take(i as int)),
            forall|k: int| 0 <= k <= i ==> #[trigger] offs@[k] == byte_len(line@.take(k)),
        decreases line.len() - i,
    {
        proof {
            assert(line@.take(i + 1).drop_last() =~= line@.take(i as int));
            assert(line@ =~= line@.take(i + 1) + line@.subrange(i + 1, line@.len() as int));
            lemma_byte_len_concat(line@.take(i + 1), line@.subrange(i + 1, line@.len() as int));
        }
        n = n + char_width_exec(line[i]);
        i = i + 1;
        offs.push(n);
    }
    offs
}

/// The character index at byte offset `b`, given the byte offsets of a line.
fn index_of_offset(offs: &Vec<usize>, b: usize) -> (r: Option<usize>)
    ensures
        match r {
            Some(k) => k < offs@.len() && offs@[k as int] == b,
            None => forall|k: int| 0 <= k < offs@.len() ==> offs@[k] != b,
        },
{
    let mut k: usize = 0;
    while k < offs.len()
        invariant
            k <= offs@.len(),
            forall|j: int| 0 <= j < k ==> offs@[j] != b,
        decreases offs.len() - k,
    {
        if offs[k] == b {
            return Some(k);
        }
        k = k + 1;
    }
    None
}

/// Splits a line longer than `max_chars` bytes into overlapping pieces.
pub fn split_long_line(line: &[char], max_chars: usize, overlap_chars: usize) -> (r: Vec<Vec<char>>)
    requires
        max_chars < byte_len(line@) <= isize::MAX,
        long_line_cuts_ok(line@, max_chars as nat, overlap_chars as nat, 0),
    ensures
        views(r@) == long_line_pieces(line@, max_chars as nat, overlap_chars as nat, 0),
{
    let offs = byte_offsets(line);
    let total = offs[line.len()];
    assert(line@.take(line@.len() as int) =~= line@);
    let ghost max = max_chars as nat;
    let ghost ov = overlap_chars as nat;
    let mut out: Vec<Vec<char>> = Vec::new();
    let mut start: usize = 0;
    loop
        invariant
            total == byte_len(line@),
            max == max_chars as nat,
            ov == overlap_chars as nat,
            max_chars < total <= isize::MAX,
            start < total,
            offs@.len() == line@.len() + 1,
            forall|k: int| 0 <= k <= line@.len() ==> #[trigger] offs@[k] == byte_len(line@.take(k)),
            long_line_cuts_ok(line@, max, ov, start as nat),
            long_line_pieces(line@, max, ov, 0) == views(out@) + long_line_pieces(
                line@,
                max,
                ov,
                start as nat,
            ),
        decreases total - start,
    {
        let end = if start + max_chars <= total {
            start + max_chars
        } else {
            total
        };
        let ka = index_of_offset(&offs, start);
        let kb = index_of_offset(&offs, end);
        proof {
            assert(end as nat == piece_end(total as nat, start as nat, max));
            assert(is_boundary(line@, start as nat));
            assert(is_boundary(line@, end as nat));
            let ca = char_at_byte(line@, start as nat);
            let cb = char_at_byte(line@, end as nat);
            assert(offs@[ca] == start);
            assert(offs@[cb] == end);
        }
        match (ka, kb) {
            (Some(a), Some(b)) => {
                proof {
                    lemma_char_at_byte(line@, a as int);
                    lemma_char_at_byte(line@, b as int);
                    if b < a {
                        lemma_prefix_bytes_strict(line@, b as int, a as int);
                    }
                }
                let piece = slice(line, a, b);
                assert(char_at_byte(line@, start as nat) == a);
                assert(char_at_byte(line@, end as nat) == b);
                assert(piece@ == byte_slice(line@, start as nat, end as nat));
                let ghost before = views(out@);
                out.push(piece);
                assert(views(out@) =~= before.push(piece@));
                if end == total {
                    assert(long_line_pieces(line@, max, ov, start as nat) =~= seq![piece@]);
                    assert(views(out@) =~= before + seq![piece@]);
                    return out;
                }
                let back = if end >= overlap_chars {
                    end - overlap_chars
                } else {
                    0
                };
                let next = if back >= start + 1 {
                    back
                } else {
                    start + 1
                };
                assert(before + long_line_pieces(line@, max, ov, start as nat) =~= views(out@)
                    + long_line_pieces(line@, max, ov, next as nat));
                if next >= total {
                    assert(views(out@) + long_line_pieces(line@, max, ov, next as nat) =~= views(
                        out@,
                    ));
                    return out;
                }
                start = next;
            },
            _ => {
                return out;
            },
        }
    }
}


// ---------------------------------------------------------------------------
// Chunking
// ---------------------------------------------------------------------------

/// The state of the line scan: chunks so far, the pending text and the line
/// where it started.
pub struct ChunkScan {
    pub chunks: Seq<ChunkView>,
    pub buf: Seq<char>,
    pub start: nat,
}

/// `L{start+1}` for one line, `L{start+1}-L{end+1}` for a range.
pub open spec fn loc_text(start: nat, end: nat) -> Seq<char> {
    if start == end {
        seq!['L'] + decimal(start + 1)
    } else {
        seq!['L'] + decimal(start + 1) + seq!['-', 'L'] + decimal(end + 1)
    }
}

/// Emits the pending text (trimmed) as a chunk ending at line `end`; pending
/// text that is all whitespace stays pending.
pub open spec fn flush(st: ChunkScan, end: nat) -> ChunkScan {
    let t = trim(st.buf);
    if t.len() == 0 {
        st
    } else {
        ChunkScan {
            chunks: st.chunks.push(
                ChunkView {
                    ord: st.chunks.len() as i64,
                    text: t,
                    loc: loc_text(st.start, end),
                    token_count: word_count(t) as i64,
                },
            ),
            buf: Seq::empty(),
            start: end + 1,
        }
    }
}

/// The chunk made of one piece of the long line `idx`.
pub open spec fn piece_chunk(ord: nat, piece: Seq<char>, idx: nat) -> ChunkView {
    ChunkView {
        ord: ord as i64,
        text: piece,
        loc: seq!['L'] + decimal(idx + 1),
        token_count: word_count(piece) as i64,
    }
}

/// Appends the pieces of the long line `idx` as chunks.
pub open spec fn push_pieces(chunks: Seq<ChunkView>, pieces: Seq<Seq<char>>, idx: nat) -> Seq<
    ChunkView,
>
    decreases pieces.len(),
{
    if pieces.len() == 0 {
        chunks
    } else {
        let prev = push_pieces(chunks, pieces.drop_last(), idx);
        prev.push(piece_chunk(prev.len(), pieces.last(), idx))
    }
}

pub open spec fn prev_line(idx: nat) -> nat {
    if idx == 0 {
        0
    } else {
        (idx - 1) as nat
    }
}

/// One step of the scan: line `idx` with text `line`.
pub open spec fn scan_line(st: ChunkScan, idx: nat, line: Seq<char>, max: nat, overlap: nat) -> ChunkScan {
    let lb = byte_len(line);
    let prospective = if st.buf.len() == 0 {
        lb
    } else {
        byte_len(st.buf) + 1 + lb
    };
    let st1 = if prospective > max && st.buf.len() > 0 {
        flush(st, prev_line(idx))
    } else {
        st
    };
    if lb > max {
        let st2 = if st1.buf.len() > 0 {
            flush(st1, prev_line(idx))
        } else {
            st1
        };
        ChunkScan {
            chunks: push_pieces(st2.chunks, long_line_pieces(line, max, overlap, 0), idx),
            buf: st2.buf,
            start: idx + 1,
        }
    } else if st1.buf.len() == 0 {
        ChunkScan { chunks: st1.chunks, buf: line, start: idx }
    } else {
        ChunkScan { chunks: st1.chunks, buf: st1.buf + seq!['\n'] + line, start: st1.start }
    }
}

/// The scan over the lines `ls`.
pub open spec fn scan_lines(ls: Seq<Seq<char>>, max: nat, overlap: nat) -> ChunkScan
    decreases ls.len(),
{
    if ls.len() == 0 {
        ChunkScan { chunks: Seq::empty(), buf: Seq::empty(), start: 0 }
    } else {
        scan_line(scan_lines(ls.drop_last(), max, overlap), (ls.len() - 1) as nat, ls.last(), max, overlap)
    }
}

/// The chunks of `text`: lines are gathered (joined by `'\n'`) while they fit
/// in `max` bytes; a gathered block is emitted trimmed, with its line range;
/// a line longer than `max` bytes is emitted as overlapping pieces of it.
pub open spec fn chunks_of(text: Seq<char>, max: nat, overlap: nat) -> Seq<ChunkView> {
    let ls = lines(text);
    if text.len() == 0 || ls.len() == 0 {
        Seq::empty()
    } else {
        let st = scan_lines(ls, max, overlap);
        if st.buf.len() > 0 {
            flush(st, (ls.len() - 1) as nat).chunks
        } else {
            st.chunks
        }
    }
}

/// Every line longer than `max` bytes can be cut at its piece boundaries
/// (otherwise the byte slicing of the pieces would panic).
pub open spec fn long_lines_cut_ok(text: Seq<char>, max: nat, overlap: nat) -> bool {
    forall|i: int|
        0 <= i < lines(text).len() && byte_len(lines(text)[i]) > max ==> #[trigger] long_line_cuts_ok(
            lines(text)[i],
            max,
            overlap,
            0,
        )
}

// Byte accounting for lines, to bound the arithmetic.

pub open spec fn lines_bytes(ls: Seq<Seq<char>>) -> nat
    decreases ls.len(),
{
    if ls.len() == 0 {
        0
    } else {
        lines_bytes(ls.drop_last()) + byte_len(ls.last()) + 1
    }
}

proof fn lemma_lines_bytes_update_last(ls: Seq<Seq<char>>, x: Seq<char>)
    requires
        ls.len() > 0,
    ensures
        lines_bytes(ls.update(ls.len() - 1, x)) == lines_bytes(ls.drop_last()) + byte_len(x) + 1,
{
    assert(ls.update(ls.len() - 1, x).drop_last() =~= ls.drop_last());
}

proof fn lemma_split_char_bytes(s: Seq<char>)
    ensures
        lines_bytes(split_char(s, '\n')) == byte_len(s) + 1,
        split_char(s, '\n').len() >= 1,
    decreases s.len(),
{
    if s.len() == 0 {
        assert(split_char(s, '\n').drop_last() =~= Seq::<Seq<char>>::empty());
        assert(byte_len(Seq::<char>::empty()) == 0);
        assert(lines_bytes(Seq::<Seq<char>>::empty()) == 0);
    } else {
        lemma_split_char_bytes(s.drop_last());
        assert(byte_len(Seq::<char>::empty()) == 0);
        let p = split_char(s.drop_last(), '\n');
        if s.last() == '\n' {
            assert(p.push(Seq::<char>::empty()).drop_last() =~= p);
            assert(char_width('\n') == 1);
        } else {
            lemma_lines_bytes_update_last(p, p.last().push(s.last()));
            assert(p.last().push(s.last()).drop_last() =~= p.last());
            assert(p == p.drop_last().push(p.last()));
            assert(lines_bytes(p) == lines_bytes(p.drop_last()) + byte_len(p.last()) + 1);
        }
    }
}

proof fn lemma_strip_cr_bytes(ls: Seq<Seq<char>>)
    ensures
        lines_bytes(strip_cr_all(ls)) <= lines_bytes(ls),
        strip_cr_all(ls).len() == ls.len(),
    decreases ls.len(),
{
    if ls.len() > 0 {
        lemma_strip_cr_bytes(ls.drop_last());
        assert(strip_cr_all(ls).drop_last() =~= strip_cr_all(ls.drop_last()));
        let l = ls.last();
        if l.len() > 0 && l.last() == '\r' {
            assert(l =~= l.drop_last().push(l.last()));
        }
    }
}

proof fn lemma_lines_bytes_ge_len(ls: Seq<Seq<char>>)
    ensures
        lines_bytes(ls) >= ls.len(),
    decreases ls.len(),
{
    if ls.len() > 0 {
        lemma_lines_bytes_ge_len(ls.drop_last());
    }
}

proof fn lemma_lines_bytes_take(ls: Seq<Seq<char>>, k: int)
    requires
        0 <= k <= ls.len(),
    ensures
        lines_bytes(ls.take(k)) <= lines_bytes(ls),
    decreases ls.len() - k,
{
    if k < ls.len() {
        lemma_lines_bytes_take(ls, k + 1);
        assert(ls.take(k + 1).drop_last() =~= ls.take(k));
    } else {
        assert(ls.take(k) =~= ls);
    }
}

proof fn lemma_lines_bytes_bound(s: Seq<char>)
    ensures
        lines_bytes(lines(s)) <= byte_len(s) + 1,
{
    let pieces = split_char(s, '\n');
    lemma_split_char_bytes(s);
    lemma_strip_cr_bytes(pieces.drop_last());
    assert(pieces =~= pieces.drop_last().push(pieces.last()));
    if pieces.last().len() == 0 {
    } else {
        let sc = strip_cr_all(pieces.drop_last());
        assert(sc.push(pieces.last()).drop_last() =~= sc);
    }
}

// Executable scan.

pub open spec fn scan_of(chunks: Seq<ChunkDraft>, buf: Seq<char>, start: usize) -> ChunkScan {
    ChunkScan { chunks: chunk_views(chunks), buf, start: start as nat }
}

fn loc_string(start: usize, end: usize) -> (r: String)
    requires
        end < usize::MAX,
        start < usize::MAX,
    ensures
        r@ == loc_text(start as nat, end as nat),
{
    let mut v: Vec<char> = Vec::new();
    v.push('L');
    push_decimal(&mut v, start + 1);
    if start != end {
        v.push('-');
        v.push('L');
        push_decimal(&mut v, end + 1);
    }
    assert(v@ =~= loc_text(start as nat, end as nat));
    string_of(&v)
}

fn flush_buf(
    chunks: &mut Vec<ChunkDraft>,
    buf: &mut Vec<char>,
    buf_bytes: &mut usize,
    start_line: &mut usize,
    end_line: usize,
)
    requires
        end_line + 1 < usize::MAX,
        *old(start_line) < usize::MAX,
        byte_len(old(buf)@) == *old(buf_bytes),
    ensures
        scan_of(final(chunks)@, final(buf)@, *final(start_line)) == flush(
            scan_of(old(chunks)@, old(buf)@, *old(start_line)),
            end_line as nat,
        ),
        byte_len(final(buf)@) == *final(buf_bytes),
        final(buf)@.len() == 0 || final(buf)@ == old(buf)@,
        *final(start_line) == *old(start_line) || *final(start_line) == end_line + 1,
{
    let t = trim_chars(buf);
    if t.len() == 0 {
        return ;
    }
    let ord = chunks.len() as i64;
    let token_count = word_count_exec(&t) as i64;
    let loc = loc_string(*start_line, end_line);
    let text = string_of(&t);
    let ghost before = chunk_views(chunks@);
    chunks.push(ChunkDraft { ord, text, loc, token_count });
    assert(chunk_views(chunks@) =~= before.push(chunks@.last()@));
    *buf = Vec::new();
    *buf_bytes = 0;
    *start_line = end_line + 1;
}

fn push_piece_chunks(chunks: &mut Vec<ChunkDraft>, pieces: &Vec<Vec<char>>, idx: usize)
    requires
        idx < usize::MAX,
    ensures
        chunk_views(final(chunks)@) == push_pieces(chunk_views(old(chunks)@), views(pieces@), idx as nat),
{
    let mut k: usize = 0;
    while k < pieces.len()
        invariant
            k <= pieces@.len(),
            idx < usize::MAX,
            chunk_views(chunks@) == push_pieces(
                chunk_views(old(chunks)@),
                views(pieces@).take(k as int),
                idx as nat,
            ),
        decreases pieces.len() - k,
    {
        let piece = &pieces[k];
        let ord = chunks.len() as i64;
        let token_count = word_count_exec(piece) as i64;
        let mut lv: Vec<char> = Vec::new();
        lv.push('L');
        push_decimal(&mut lv, idx + 1);
        let loc = string_of(&lv);
        let text = string_of(piece);
        let ghost before = chunk_views(chunks@);
        chunks.push(ChunkDraft { ord, text, loc, token_count });
        proof {
            assert(views(pieces@).take(k + 1).drop_last() =~= views(pieces@).take(k as int));
            assert(lv@ =~= seq!['L'] + decimal(idx as nat + 1));
            assert(chunk_views(chunks@) =~= before.push(chunks@.last()@));
        }
        k = k + 1;
    }
    assert(views(pieces@).take(pieces@.len() as int) =~= views(pieces@));
}

/// Splits plain text into chunks with line-range locations (`L{start}-L{end}`).
pub fn chunk_text(text: &str, config: &ChunkerConfig) -> (r: Vec<ChunkDraft>)
    requires
        byte_len(text@) <= isize::MAX,
        long_lines_cut_ok(text@, config.max_chars as nat, config.overlap_chars as nat),
    ensures
        chunk_views(r@) == chunks_of(text@, config.max_chars as nat, config.overlap_chars as nat),
{
    let ghost max = config.max_chars as nat;
    let ghost ov = config.overlap_chars as nat;
    if text.is_empty() {
        return Vec::new();
    }
    let cs = chars_of(text);
    let ls = lines_of(&cs);
    if ls.len() == 0 {
        return Vec::new();
    }
    proof {
        lemma_lines_bytes_bound(text@);
        lemma_lines_bytes_ge_len(views(ls@));
    }
    let mut chunks: Vec<ChunkDraft> = Vec::new();
    assert(chunk_views(chunks@) =~= Seq::<ChunkView>::empty());
    let mut start_line: usize = 0;
    let mut buf: Vec<char> = Vec::new();
    let mut buf_bytes: usize = 0;
    let mut idx: usize = 0;
    assert(views(ls@).take(0) =~= Seq::<Seq<char>>::empty());
    while idx < ls.len()
        invariant
            max == config.max_chars as nat,
            ov == config.overlap_chars as nat,
            idx <= ls@.len(),
            views(ls@) == lines(text@),
            lines_bytes(views(ls@)) <= byte_len(text@) + 1,
            ls@.len() <= lines_bytes(views(ls@)),
            byte_len(text@) <= isize::MAX,
            long_lines_cut_ok(text@, max, ov),
            byte_len(buf@) == buf_bytes,
            buf_bytes <= lines_bytes(views(ls@).take(idx as int)),
            start_line <= idx,
            scan_of(chunks@, buf@, start_line) == scan_lines(views(ls@).take(idx as int), max, ov),
        decreases ls.len() - idx,
    {
        let ghost st0 = scan_of(chunks@, buf@, start_line);
        let line = &ls[idx];
        proof {
            assert(views(ls@).take(idx + 1).drop_last() =~= views(ls@).take(idx as int));
            assert(views(ls@)[idx as int] == line@);
            lemma_lines_bytes_take(views(ls@), idx + 1);
            lemma_byte_len_ge_len(line@);
        }
        let lb = byte_len_exec(line);
        let prospective = if buf.len() == 0 {
            lb
        } else {
            buf_bytes + 1 + lb
        };
        let prev = if idx == 0 {
            0
        } else {
            idx - 1
        };
        if prospective > config.max_chars && buf.len() > 0 {
            flush_buf(&mut chunks, &mut buf, &mut buf_bytes, &mut start_line, prev);
        }
        let ghost st1 = scan_of(chunks@, buf@, start_line);
        if lb > config.max_chars {
            if buf.len() > 0 {
                flush_buf(&mut chunks, &mut buf, &mut buf_bytes, &mut start_line, prev);
            }
            let ghost st2 = scan_of(chunks@, buf@, start_line);
            proof {
                assert(long_line_cuts_ok(lines(text@)[idx as int], max, ov, 0));
            }
            let pieces = split_long_line(line, config.max_chars, config.overlap_chars);
            push_piece_chunks(&mut chunks, &pieces, idx);
            start_line = idx + 1;
            proof {
                assert(scan_of(chunks@, buf@, start_line) == scan_line(st0, idx as nat, line@, max, ov));
            }
        } else if buf.len() == 0 {
            start_line = idx;
            push_all(&mut buf, line);
            buf_bytes = lb;
            proof {
                assert(buf@ =~= line@);
                assert(scan_of(chunks@, buf@, start_line) == scan_line(st0, idx as nat, line@, max, ov));
            }
        } else {
            let ghost b0 = buf@;
            buf.push('\n');
            push_all(&mut buf, line);
            buf_bytes = buf_bytes + 1 + lb;
            proof {
                assert(buf@ =~= b0 + seq!['\n'] + line@);
                lemma_byte_len_concat(b0 + seq!['\n'], line@);
                lemma_byte_len_concat(b0, seq!['\n']);
                assert(byte_len(Seq::<char>::empty()) == 0);
                assert(seq!['\n'].drop_last() =~= Seq::<char>::empty());
                assert(('\n' as u32) == 10);
                assert(char_width('\n') == 1);
                assert(byte_len(seq!['\n']) == 1);
                assert(seq!['\n'].drop_last() =~= Seq::<char>::empty());
                assert(char_width('\n') == 1);
                assert(scan_of(chunks@, buf@, start_line) == scan_line(st0, idx as nat, line@, max, ov));
            }
        }
        idx = idx + 1;
    }
    assert(views(ls@).take(ls@.len() as int) =~= views(ls@));
    if buf.len() > 0 {
        flush_buf(&mut chunks, &mut buf, &mut buf_bytes, &mut start_line, ls.len() - 1);
    }
    chunks
}

/// Whether every cut of a long line falls between two characters.
fn line_cuts_ok(line: &[char], max_chars: usize, overlap_chars: usize) -> (b: bool)
    requires
        byte_len(line@) <= isize::MAX,
    ensures
        b == long_line_cuts_ok(line@, max_chars as nat, overlap_chars as nat, 0),
{
    let offs = byte_offsets(line);
    let total = offs[line.len()];
    assert(line@.take(line@.len() as int) =~= line@);
    let ghost max = max_chars as nat;
    let ghost ov = overlap_chars as nat;
    let mut start: usize = 0;
    loop
        invariant
            total == byte_len(line@),
            total <= isize::MAX,
            max == max_chars as nat,
            ov == overlap_chars as nat,
            start <= total,
            offs@.len() == line@.len() + 1,
            forall|k: int| 0 <= k <= line@.len() ==> #[trigger] offs@[k] == byte_len(line@.take(k)),
            long_line_cuts_ok(line@, max, ov, 0) == long_line_cuts_ok(line@, max, ov, start as nat),
        decreases total - start,
    {
        if start >= total {
            return true;
        }
        let end = if max_chars <= total - start {
            start + max_chars
        } else {
            total
        };
        assert(end as nat == piece_end(total as nat, start as nat, max));
        let ka = index_of_offset(&offs, start);
        let kb = index_of_offset(&offs, end);
        if ka.is_none() || kb.is_none() {
            proof {
                if ka.is_none() {
                    assert forall|k: int| 0 <= k <= line@.len() implies byte_len(line@.take(k)) != start by {
                        assert(offs@[k] == byte_len(line@.take(k)));
                    }
                    assert(!is_boundary(line@, start as nat));
                } else {
                    assert forall|k: int| 0 <= k <= line@.len() implies byte_len(line@.take(k)) != end by {
                        assert(offs@[k] == byte_len(line@.take(k)));
                    }
                    assert(!is_boundary(line@, end as nat));
                }
            }
            return false;
        }
        proof {
            let a = ka.unwrap() as int;
            let b = kb.unwrap() as int;
            assert(offs@[a] == byte_len(line@.take(a)));
            assert(offs@[b] == byte_len(line@.take(b)));
            assert(is_boundary(line@, start as nat));
            assert(is_boundary(line@, end as nat));
        }
        if end == total {
            return true;
        }
        let back = if end >= overlap_chars {
            end - overlap_chars
        } else {
            0
        };
        let next = if back >= start + 1 {
            back
        } else {
            start + 1
        };
        assert(next as nat == next_start(start as nat, end as nat, ov));
        start = next;
    }
}

/// Whether the UTF-8 length of `s` is at most `bound`.
fn byte_len_at_most(s: &[char], bound: usize) -> (b: bool)
    ensures
        b == (byte_len(s@) <= bound),
{
    let mut n: usize = 0;
    let mut i: usize = 0;
    while i < s.len()
        invariant
            i <= s@.len(),
            n == byte_len(s@.take(i as int)),
            n <= bound,
        decreases s.len() - i,
    {
        proof {
            assert(s@.take(i + 1).drop_last() =~= s@.take(i as int));
            assert(s@ =~= s@.take(i + 1) + s@.subrange(i + 1, s@.len() as int));
            lemma_byte_len_concat(s@.take(i + 1), s@.subrange(i + 1, s@.len() as int));
        }
        let w = char_width_exec(s[i]);
        if w > bound - n {
            return false;
        }
        n = n + w;
        i = i + 1;
    }
    assert(s@.take(s@.len() as int) =~= s@);
    true
}

/// Whether `chunk_text` can run on `text`: it fits the platform, and every
/// long line can be cut between characters.
pub fn chunk_text_accepts(text: &str, config: &ChunkerConfig) -> (b: bool)
    ensures
        b == (byte_len(text@) <= isize::MAX && long_lines_cut_ok(
            text@,
            config.max_chars as nat,
            config.overlap_chars as nat,
        )),
{
    let cs = chars_of(text);
    if !byte_len_at_most(&cs, isize::MAX as usize) {
        return false;
    }
    let ls = lines_of(&cs);
    let ghost max = config.max_chars as nat;
    let ghost ov = config.overlap_chars as nat;
    proof {
        lemma_lines_bytes_bound(text@);
    }
    let mut i: usize = 0;
    while i < ls.len()
        invariant
            i <= ls@.len(),
            max == config.max_chars as nat,
            ov == config.overlap_chars as nat,
            views(ls@) == lines(text@),
            byte_len(text@) <= isize::MAX,
            lines_bytes(views(ls@)) <= byte_len(text@) + 1,
            forall|j: int|
                0 <= j < i && byte_len(lines(text@)[j]) > max ==> #[trigger] long_line_cuts_ok(
                    lines(text@)[j],
                    max,
                    ov,
                    0,
                ),
        decreases ls.len() - i,
    {
        let line = &ls[i];
        proof {
            assert(views(ls@)[i as int] == line@);
            assert(views(ls@).take(i + 1).drop_last() =~= views(ls@).take(i as int));
            assert(views(ls@).take(i + 1).last() == line@);
            lemma_lines_bytes_take(views(ls@), i + 1);
        }
        let lb = byte_len_exec(line);
        if lb > config.max_chars && !line_cuts_ok(line, config.max_chars, config.overlap_chars) {
            return false;
        }
        i = i + 1;
    }
    true
}

/// `chunk_text` where it can run; none where cutting a long line would
/// fall inside a character.
pub fn chunk_text_checked(text: &str, config: &ChunkerConfig) -> (r: Option<Vec<ChunkDraft>>)
    ensures
        match r {
            Some(v) => chunk_views(v@) == chunks_of(text@, config.max_chars as nat, config.overlap_chars as nat),
            None => !(byte_len(text@) <= isize::MAX && long_lines_cut_ok(
                text@,
                config.max_chars as nat,
                config.overlap_chars as nat,
            )),
        },
{
    if chunk_text_accepts(text, config) {
        Some(chunk_text(text, config))
    } else {
        None
    }
}


// ---------------------------------------------------------------------------
// Laws of the chunker
// ---------------------------------------------------------------------------

proof fn lemma_trim_start_is_suffix(s: Seq<char>)
    ensures
        exists|k: int| 0 <= k <= s.len() && trim_start(s) == s.subrange(k, s.len() as int),
        trim_start(s).len() > 0 ==> !is_ws(trim_start(s)[0]),
    decreases s.len(),
{
    if s.len() > 0 && is_ws(s[0]) {
        lemma_trim_start_is_suffix(s.drop_first());
        let k = choose|k: int|
            0 <= k <= s.drop_first().len() && trim_start(s.drop_first()) == s.drop_first().subrange(
                k,
                s.drop_first().len() as int,
            );
        assert(s.drop_first().subrange(k, s.drop_first().len() as int) =~= s.subrange(
            k + 1,
            s.len() as int,
        ));
    } else {
        assert(s.subrange(0, s.len() as int) =~= s);
    }
}

proof fn lemma_trim_end_is_prefix(s: Seq<char>)
    ensures
        exists|k: int| 0 <= k <= s.len() && trim_end(s) == s.subrange(0, k),
        s.len() > 0 && !is_ws(s[0]) ==> trim_end(s).len() > 0,
    decreases s.len(),
{
    if s.len() > 0 && is_ws(s.last()) {
        lemma_trim_end_is_prefix(s.drop_last());
        let k = choose|k: int|
            0 <= k <= s.drop_last().len() && trim_end(s.drop_last()) == s.drop_last().subrange(0, k);
        assert(s.drop_last().subrange(0, k) =~= s.subrange(0, k));
        if s.len() > 1 && !is_ws(s[0]) {
            assert(s.drop_last()[0] == s[0]);
        }
    } else {
        assert(s.subrange(0, s.len() as int) =~= s);
    }
}

proof fn lemma_byte_len_subrange(s: Seq<char>, a: int, b: int)
    requires
        0 <= a <= b <= s.len(),
    ensures
        byte_len(s.subrange(a, b)) <= byte_len(s),
{
    assert(s =~= s.subrange(0, a) + s.subrange(a, b) + s.subrange(b, s.len() as int));
    lemma_byte_len_concat(s.subrange(0, a) + s.subrange(a, b), s.subrange(b, s.len() as int));
    lemma_byte_len_concat(s.subrange(0, a), s.subrange(a, b));
}

proof fn lemma_trim_bytes(s: Seq<char>)
    ensures
        byte_len(trim(s)) <= byte_len(s),
        trim(s).len() == 0 ==> trim_start(s).len() == 0,
{
    lemma_trim_start_is_suffix(s);
    let k = choose|k: int| 0 <= k <= s.len() && trim_start(s) == s.subrange(k, s.len() as int);
    lemma_byte_len_subrange(s, k, s.len() as int);
    let t = trim_start(s);
    lemma_trim_end_is_prefix(t);
    let j = choose|j: int| 0 <= j <= t.len() && trim_end(t) == t.subrange(0, j);
    lemma_byte_len_subrange(t, 0, j);
}

proof fn lemma_trim_start_concat(a: Seq<char>, b: Seq<char>)
    requires
        trim_start(a).len() == 0,
    ensures
        trim_start(a + b) == trim_start(b),
    decreases a.len(),
{
    if a.len() > 0 {
        if !is_ws(a[0]) {
            assert(trim_start(a) == a);
        }
        assert((a + b).drop_first() =~= a.drop_first() + b);
        lemma_trim_start_concat(a.drop_first(), b);
    } else {
        assert(a + b =~= b);
    }
}

/// No pending whitespace-only text ever hides a chunk longer than `max`.
pub open spec fn scan_ok(st: ChunkScan, max: nat) -> bool {
    &&& forall|i: int|
        0 <= i < st.chunks.len() ==> #[trigger] st.chunks[i].ord == i as i64 && byte_len(
            st.chunks[i].text,
        ) <= max
    &&& byte_len(trim(st.buf)) <= max
}

proof fn lemma_flush_ok(st: ChunkScan, end: nat, max: nat)
    requires
        scan_ok(st, max),
    ensures
        scan_ok(flush(st, end), max),
        flush(st, end).buf.len() == 0 || (flush(st, end) == st && trim_start(st.buf).len() == 0),
{
    lemma_trim_bytes(st.buf);
    let f = flush(st, end);
    if trim(st.buf).len() > 0 {
        assert forall|i: int| 0 <= i < f.chunks.len() implies #[trigger] f.chunks[i].ord == i as i64
            && byte_len(f.chunks[i].text) <= max by {
            if i < st.chunks.len() {
                assert(f.chunks[i] == st.chunks[i]);
            }
        }
        assert(trim(Seq::<char>::empty()) =~= Seq::<char>::empty());
    }
}

proof fn lemma_piece_bytes(line: Seq<char>, start: nat, end: nat)
    requires
        start <= end,
        is_boundary(line, start),
        is_boundary(line, end),
    ensures
        byte_len(byte_slice(line, start, end)) == end - start,
{
    let ca = char_at_byte(line, start);
    let cb = char_at_byte(line, end);
    if cb < ca {
        lemma_prefix_bytes_strict(line, cb, ca);
    }
    assert(line.take(cb) =~= line.take(ca) + line.subrange(ca, cb));
    lemma_byte_len_concat(line.take(ca), line.subrange(ca, cb));
}

proof fn lemma_long_line_pieces_bounded(line: Seq<char>, max: nat, ov: nat, start: nat)
    requires
        long_line_cuts_ok(line, max, ov, start),
    ensures
        forall|i: int|
            0 <= i < long_line_pieces(line, max, ov, start).len() ==> byte_len(
                #[trigger] long_line_pieces(line, max, ov, start)[i],
            ) <= max,
    decreases byte_len(line) - start,
{
    let total = byte_len(line);
    if start < total {
        let end = piece_end(total, start, max);
        lemma_piece_bytes(line, start, end);
        if end != total {
            let n = next_start(start, end, ov);
            lemma_long_line_pieces_bounded(line, max, ov, n);
            let rest = long_line_pieces(line, max, ov, n);
            assert forall|i: int|
                0 <= i < long_line_pieces(line, max, ov, start).len() implies byte_len(
                #[trigger] long_line_pieces(line, max, ov, start)[i],
            ) <= max by {
                if i > 0 {
                    assert(long_line_pieces(line, max, ov, start)[i] == rest[i - 1]);
                }
            }
        }
    }
}

proof fn lemma_push_pieces_ok(chunks: Seq<ChunkView>, pieces: Seq<Seq<char>>, idx: nat, max: nat)
    requires
        forall|i: int|
            0 <= i < chunks.len() ==> #[trigger] chunks[i].ord == i as i64 && byte_len(
                chunks[i].text,
            ) <= max,
        forall|i: int| 0 <= i < pieces.len() ==> byte_len(#[trigger] pieces[i]) <= max,
    ensures
        forall|i: int|
            0 <= i < push_pieces(chunks, pieces, idx).len() ==> #[trigger] push_pieces(
                chunks,
                pieces,
                idx,
            )[i].ord == i as i64 && byte_len(push_pieces(chunks, pieces, idx)[i].text) <= max,
        push_pieces(chunks, pieces, idx).len() == chunks.len() + pieces.len(),
    decreases pieces.len(),
{
    if pieces.len() > 0 {
        assert forall|i: int| 0 <= i < pieces.drop_last().len() implies byte_len(
            #[trigger] pieces.drop_last()[i],
        ) <= max by {
            assert(pieces.drop_last()[i] == pieces[i]);
        }
        lemma_push_pieces_ok(chunks, pieces.drop_last(), idx, max);
        let prev = push_pieces(chunks, pieces.drop_last(), idx);
        assert(byte_len(pieces.last()) <= max);
        assert forall|i: int|
            0 <= i < push_pieces(chunks, pieces, idx).len() implies #[trigger] push_pieces(
            chunks,
            pieces,
            idx,
        )[i].ord == i as i64 && byte_len(push_pieces(chunks, pieces, idx)[i].text) <= max by {
            if i < prev.len() {
                assert(push_pieces(chunks, pieces, idx)[i] == prev[i]);
            }
        }
    }
}

proof fn lemma_newline()
    ensures
        trim_start(seq!['\n']).len() == 0,
        byte_len(seq!['\n']) == 1,
{
    let s = seq!['\n'];
    let e = Seq::<char>::empty();
    assert(('\n' as u32) == 10);
    assert(s[0] == '\n');
    assert(is_ws(s[0]));
    assert(s.drop_first() =~= e);
    assert(s.drop_last() =~= e);
    assert(trim_start(e) == e);
    assert(byte_len(e) == 0);
    assert(s.last() == '\n');
    assert(char_width(s.last()) == 1);
}

#[verifier::spinoff_prover]
proof fn lemma_scan_line_ok(st: ChunkScan, idx: nat, line: Seq<char>, max: nat, ov: nat)
    requires
        scan_ok(st, max),
        byte_len(line) > max ==> long_line_cuts_ok(line, max, ov, 0),
    ensures
        scan_ok(scan_line(st, idx, line, max, ov), max),
{
    let lb = byte_len(line);
    let prospective = if st.buf.len() == 0 {
        lb
    } else {
        byte_len(st.buf) + 1 + lb
    };
    let st1 = if prospective > max && st.buf.len() > 0 {
        flush(st, prev_line(idx))
    } else {
        st
    };
    lemma_flush_ok(st, prev_line(idx), max);
    assert(scan_ok(st1, max));
    let r = scan_line(st, idx, line, max, ov);
    if lb > max {
        lemma_flush_ok(st1, prev_line(idx), max);
        let st2 = if st1.buf.len() > 0 {
            flush(st1, prev_line(idx))
        } else {
            st1
        };
        assert(scan_ok(st2, max));
        lemma_long_line_pieces_bounded(line, max, ov, 0);
        lemma_push_pieces_ok(st2.chunks, long_line_pieces(line, max, ov, 0), idx, max);
    } else if st1.buf.len() == 0 {
        lemma_trim_bytes(line);
    } else {
        let nb = st1.buf + seq!['\n'] + line;
        lemma_trim_bytes(nb);
        lemma_trim_bytes(line);
        if prospective > max {
            // The flush found only whitespace: the pending text is now the line.
            assert(trim_start(st1.buf).len() == 0);
            lemma_newline();
            lemma_trim_start_concat(st1.buf, seq!['\n'] + line);
            lemma_trim_start_concat(seq!['\n'], line);
            assert(nb =~= st1.buf + (seq!['\n'] + line));
        } else {
            lemma_newline();
            lemma_byte_len_concat(st1.buf + seq!['\n'], line);
            lemma_byte_len_concat(st1.buf, seq!['\n']);
        }
    }
}

proof fn lemma_scan_lines_ok(ls: Seq<Seq<char>>, max: nat, ov: nat)
    requires
        forall|i: int|
            0 <= i < ls.len() && byte_len(ls[i]) > max ==> #[trigger] long_line_cuts_ok(
                ls[i],
                max,
                ov,
                0,
            ),
    ensures
        scan_ok(scan_lines(ls, max, ov), max),
    decreases ls.len(),
{
    if ls.len() == 0 {
        assert(trim(Seq::<char>::empty()) =~= Seq::<char>::empty());
    } else {
        assert forall|i: int|
            0 <= i < ls.drop_last().len() && byte_len(ls.drop_last()[i]) > max implies #[trigger] long_line_cuts_ok(
            ls.drop_last()[i],
            max,
            ov,
            0,
        ) by {
            assert(ls.drop_last()[i] == ls[i]);
            assert(long_line_cuts_ok(ls[i], max, ov, 0));
        }
        lemma_scan_lines_ok(ls.drop_last(), max, ov);
        if byte_len(ls.last()) > max {
            assert(long_line_cuts_ok(ls[ls.len() - 1], max, ov, 0));
        }
        lemma_scan_line_ok(scan_lines(ls.drop_last(), max, ov), (ls.len() - 1) as nat, ls.last(), max, ov);
    }
}

/// Law: chunk `i` carries `i` as its `ord`, and no chunk is longer than
/// `max_chars` bytes (pending text is trimmed before it is emitted, and the
/// pieces of a long line are at most `max_chars` bytes).
pub proof fn law_chunks_numbered_and_bounded(text: Seq<char>, max: nat, overlap: nat)
    requires
        long_lines_cut_ok(text, max, overlap),
    ensures
        forall|i: int|
            0 <= i < chunks_of(text, max, overlap).len() ==> #[trigger] chunks_of(
                text,
                max,
                overlap,
            )[i].ord == i as i64 && byte_len(chunks_of(text, max, overlap)[i].text) <= max,
{
    let ls = lines(text);
    if text.len() > 0 && ls.len() > 0 {
        assert forall|i: int|
            0 <= i < ls.len() && byte_len(ls[i]) > max implies #[trigger] long_line_cuts_ok(
            ls[i],
            max,
            overlap,
            0,
        ) by {
            assert(long_line_cuts_ok(lines(text)[i], max, overlap, 0));
        }
        lemma_scan_lines_ok(ls, max, overlap);
        let st = scan_lines(ls, max, overlap);
        lemma_flush_ok(st, (ls.len() - 1) as nat, max);
    }
}

} // verus!
