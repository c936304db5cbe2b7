//! The descriptor-file parser: charset auto-detection, line splitting, and
//! key/value extraction with last-occurrence-wins semantics.
use vstd::prelude::*;

use crate::codec::{
    ascii_chars_of, decode_shift_jis, decode_utf8_full, decode_utf8_lossy, encoding_utf8_of,
    is_ascii_bytes, shift_jis_of, sub_bytes, utf8_lossy_of,
};
use crate::fields::Fields;
use crate::text::{
    chars_vec, find_char, ieq, ieq_range, lemma_find_char, string_from_range, trim, trim_bounds,
};

verus! {

/// Character encoding of a descriptor file.
#[derive(Debug, Clone, Copy, PartialEq, Eq, Structural)]
pub enum Charset {
    Utf8,
    ShiftJis,
}

/// How many leading bytes the charset pre-scan may look at.
pub const CHARSET_SCAN_LIMIT: usize = 4096;

// --- line splitting -------------------------------------------------------

/// Drops one trailing carriage return, as `str::lines` does for lines that
/// ended in a newline.
pub open spec fn strip_cr(l: Seq<char>) -> Seq<char> {
    if l.len() > 0 && l.last() == '\r' {
        l.drop_last()
    } else {
        l
    }
}

/// The lines of `s`, split as `str::lines` splits them: at each newline,
/// with a carriage return directly before a newline removed, and without an
/// empty tail after a final newline.
pub open spec fn lines_of(s: Seq<char>) -> Seq<Seq<char>>
    decreases s.len(),
    via lines_of_dec
{
    if s.len() == 0 {
        Seq::empty()
    } else {
        let i = find_char(s, '\n');
        if i >= s.len() {
            seq![s]
        } else {
            seq![strip_cr(s.subrange(0, i))] + lines_of(s.subrange(i + 1, s.len() as int))
        }
    }
}

#[via_fn]
proof fn lines_of_dec(s: Seq<char>) {
    lemma_find_char(s, '\n');
}

// --- per-line field extraction -------------------------------------------

/// A trimmed line that starts with the two-character comment marker.
pub open spec fn is_comment(l: Seq<char>) -> bool {
    l.len() >= 2 && l[0] == '/' && l[1] == '/'
}

/// The key/value pair a line contributes: `None` for blank lines, comment
/// lines and lines without a comma; otherwise the trimmed parts on both
/// sides of the first comma.
pub open spec fn line_entry(l: Seq<char>) -> Option<(Seq<char>, Seq<char>)> {
    let t = trim(l);
    if t.len() == 0 || is_comment(t) {
        None
    } else {
        let i = find_char(t, ',');
        if i >= t.len() {
            None
        } else {
            Some((trim(t.subrange(0, i)), trim(t.subrange(i + 1, t.len() as int))))
        }
    }
}

/// The field mapping a sequence of lines produces; a later occurrence of a
/// key overwrites an earlier one.
pub open spec fn fields_of_lines(ls: Seq<Seq<char>>) -> Map<Seq<char>, Seq<char>>
    decreases ls.len(),
{
    if ls.len() == 0 {
        Map::empty()
    } else {
        let m = fields_of_lines(ls.drop_last());
        match line_entry(ls.last()) {
            Some(kv) => m.insert(kv.0, kv.1),
            None => m,
        }
    }
}

/// The field mapping of a decoded descriptor text.
pub open spec fn fields_of_text(s: Seq<char>) -> Map<Seq<char>, Seq<char>> {
    fields_of_lines(lines_of(s))
}

// --- charset detection ----------------------------------------------------

/// The decision the pre-scan takes on a sequence of lines: the first line
/// whose trimmed key before the first comma is `charset` (ASCII
/// case-insensitively) decides; a `UTF-8` value selects UTF-8, anything else
/// (or no such line) selects Shift_JIS.
pub open spec fn charset_of_lines(ls: Seq<Seq<char>>) -> Charset
    decreases ls.len(),
{
    if ls.len() == 0 {
        Charset::ShiftJis
    } else {
        let t = trim(ls.first());
        let i = find_char(t, ',');
        if i < t.len() && ieq(trim(t.subrange(0, i)), "charset"@) {
            if ieq(trim(t.subrange(i + 1, t.len() as int)), "UTF-8"@) {
                Charset::Utf8
            } else {
                Charset::ShiftJis
            }
        } else {
            charset_of_lines(ls.drop_first())
        }
    }
}

/// The prefix of the raw bytes that the pre-scan may inspect.
pub open spec fn scan_prefix(bytes: Seq<u8>) -> Seq<u8> {
    if bytes.len() <= CHARSET_SCAN_LIMIT {
        bytes
    } else {
        bytes.take(CHARSET_SCAN_LIMIT as int)
    }
}

/// The charset the pre-scan detects on the raw bytes, read leniently as
/// UTF-8.
pub open spec fn charset_of(bytes: Seq<u8>) -> Charset {
    charset_of_lines(lines_of(utf8_lossy_of(scan_prefix(bytes))))
}

// --- the whole parse ------------------------------------------------------

/// The three-byte UTF-8 byte-order mark stands at the front.
pub open spec fn has_bom(bytes: Seq<u8>) -> bool {
    bytes.len() >= 3 && bytes[0] == 0xEF && bytes[1] == 0xBB && bytes[2] == 0xBF
}

/// The decoded text of a descriptor file: after a byte-order mark the rest
/// is read as lossy UTF-8; otherwise the detected charset decodes the whole
/// buffer.
pub open spec fn decoded_text_of(bytes: Seq<u8>) -> Seq<char> {
    if has_bom(bytes) {
        utf8_lossy_of(bytes.skip(3))
    } else if charset_of(bytes) == Charset::Utf8 {
        encoding_utf8_of(bytes)
    } else {
        shift_jis_of(bytes)
    }
}

/// The field mapping of a raw descriptor file.
pub open spec fn descriptor_fields_of(bytes: Seq<u8>) -> Map<Seq<char>, Seq<char>> {
    fields_of_text(decoded_text_of(bytes))
}

// --- exec: shared line walking --------------------------------------------

/// Finds the first `c` in `v[from..to]`; yields `to` when absent. Agrees
/// with the spec-level [`find_char`] on the subrange.
fn find_char_vec(v: &Vec<char>, from: usize, to: usize, c: char) -> (r: usize)
    requires
        from <= to <= v@.len(),
    ensures
        from <= r <= to,
        r - from == find_char(v@.subrange(from as int, to as int), c),
        r < to ==> v@[r as int] == c,
{
    let ghost sub = v@.subrange(from as int, to as int);
    proof {
        lemma_find_char(sub, c);
    }
    let mut i = from;
    while i < to
        invariant
            from <= i <= to <= v@.len(),
            sub == v@.subrange(from as int, to as int),
            forall|j: int| 0 <= j < i - from ==> sub[j] != c,
        decreases to - i,
    {
        if v[i] == c {
            proof {
                lemma_find_char(sub, c);
                let f = find_char(sub, c);
                assert(sub[i - from] == c);
                if f < i - from {
                    assert(sub[f] != c);
                }
                if f > i - from {
                    assert(sub[i - from] != c);
                }
            }
            return i;
        }
        i = i + 1;
    }
    proof {
        lemma_find_char(sub, c);
        let f = find_char(sub, c);
        if f < sub.len() {
            assert(sub[f] != c);
        }
    }
    to
}

/// One line of `v` starting at `pos`: the bounds of the line's content
/// (carriage return before a newline already dropped) and the position where
/// the next line starts.
struct LineStep {
    lo: usize,
    hi: usize,
    next: usize,
}

/// Takes the first line of `v[pos..]`, as [`lines_of`] defines it.
fn next_line(v: &Vec<char>, pos: usize) -> (r: LineStep)
    requires
        pos < v@.len(),
    ensures
        pos <= r.lo <= r.hi <= v@.len(),
        pos < r.next <= v@.len(),
        lines_of(v@.skip(pos as int)) == seq![v@.subrange(r.lo as int, r.hi as int)] + lines_of(
            v@.skip(r.next as int),
        ),
        v@.subrange(r.lo as int, r.hi as int) == lines_of(v@.skip(pos as int)).first(),
{
    let ghost rest = v@.skip(pos as int);
    let n = v.len();
    let j = find_char_vec(v, pos, n, '\n');
    proof {
        assert(rest =~= v@.subrange(pos as int, n as int));
        lemma_find_char(rest, '\n');
    }
    if j >= n {
        // no newline: the line is the whole remainder, kept as it stands
        proof {
            assert(lines_of(rest) == seq![rest]);
            assert(v@.subrange(pos as int, n as int) =~= rest);
            assert(v@.skip(n as int) =~= Seq::<char>::empty());
            assert(lines_of(v@.skip(n as int)) =~= Seq::<Seq<char>>::empty());
            assert(seq![rest] + Seq::<Seq<char>>::empty() =~= seq![rest]);
        }
        LineStep { lo: pos, hi: n, next: n }
    } else {
        proof {
            assert(rest.subrange(0, j - pos) =~= v@.subrange(pos as int, j as int));
            assert(rest.subrange(j - pos + 1, rest.len() as int) =~= v@.skip(j + 1));
        }
        let hi = if j > pos && v[j - 1] == '\r' {
            proof {
                let head = v@.subrange(pos as int, j as int);
                assert(head.last() == v@[j - 1]);
                assert(strip_cr(head) =~= v@.subrange(pos as int, j - 1));
            }
            j - 1
        } else {
            proof {
                let head = v@.subrange(pos as int, j as int);
                if head.len() > 0 {
                    assert(head.last() == v@[j - 1]);
                }
                assert(strip_cr(head) =~= head);
            }
            j
        };
        LineStep { lo: pos, hi, next: j + 1 }
    }
}

// --- exec: charset detection ---------------------------------------------

/// Detects the descriptor charset from the leading bytes of the raw file,
/// read leniently as UTF-8.
pub fn detect_charset(bytes: &Vec<u8>) -> (c: Charset)
    ensures
        c == charset_of(bytes@),
{
    let scan_len = if bytes.len() < CHARSET_SCAN_LIMIT {
        bytes.len()
    } else {
        CHARSET_SCAN_LIMIT
    };
    let prefix = sub_bytes(bytes, 0, scan_len);
    proof {
        if bytes@.len() <= CHARSET_SCAN_LIMIT {
            assert(prefix@ =~= scan_prefix(bytes@));
        } else {
            assert(prefix@ =~= scan_prefix(bytes@));
        }
    }
    let ascii_content = decode_utf8_lossy(&prefix);
    let v = chars_vec(ascii_content.as_str());
    let charset_key = chars_vec("charset");
    let utf8_value = chars_vec("UTF-8");
    let ghost all_lines = lines_of(v@);
    let mut pos: usize = 0;
    proof {
        assert(v@.skip(0) =~= v@);
    }
    loop
        invariant
            pos <= v@.len(),
            charset_key@ == "charset"@,
            utf8_value@ == "UTF-8"@,
            all_lines == lines_of(v@),
            v@ == utf8_lossy_of(scan_prefix(bytes@)),
            charset_of_lines(all_lines) == charset_of_lines(lines_of(v@.skip(pos as int))),
        decreases v@.len() - pos,
    {
        if pos >= v.len() {
            proof {
                assert(v@.skip(pos as int) =~= Seq::<char>::empty());
            }
            return Charset::ShiftJis;
        }
        let step = next_line(&v, pos);
        let ghost line = v@.subrange(step.lo as int, step.hi as int);
        let ghost restl = lines_of(v@.skip(step.next as int));
        let ghost curl = lines_of(v@.skip(pos as int));
        proof {
            assert(curl.first() == line);
            assert(curl.drop_first() =~= restl);
        }
        let t = trim_bounds(&v, step.lo, step.hi);
        let ghost tl = trim(line);
        let ci = find_char_vec(&v, t.0, t.1, ',');
        proof {
            assert(tl == v@.subrange(t.0 as int, t.1 as int));
        }
        if ci < t.1 {
            proof {
                assert(tl.subrange(0, ci - t.0) =~= v@.subrange(t.0 as int, ci as int));
                assert(tl.subrange(ci - t.0 + 1, tl.len() as int) =~= v@.subrange(
                    ci + 1,
                    t.1 as int,
                ));
            }
            let kb = trim_bounds(&v, t.0, ci);
            if ieq_range(&v, kb.0, kb.1, &charset_key) {
                let vb = trim_bounds(&v, ci + 1, t.1);
                proof {
                    assert(ieq(trim(tl.subrange(0, ci - t.0)), "charset"@));
                }
                if ieq_range(&v, vb.0, vb.1, &utf8_value) {
                    proof {
                        assert(charset_of_lines(curl) == Charset::Utf8);
                    }
                    return Charset::Utf8;
                }
                proof {
                    assert(charset_of_lines(curl) == Charset::ShiftJis);
                }
                return Charset::ShiftJis;
            }
        }
        proof {
            assert(charset_of_lines(curl) == charset_of_lines(restl));
        }
        pos = step.next;
    }
}

// --- exec: parsing --------------------------------------------------------

/// Extracts the fields of an already decoded descriptor text.
fn parse_text(v: &Vec<char>) -> (r: Fields)
    ensures
        r@ == fields_of_text(v@),
{
    let mut fields = Fields::new();
    let ghost all = lines_of(v@);
    let ghost k: int = 0;
    let mut pos: usize = 0;
    proof {
        assert(v@.skip(0) =~= v@);
        assert(all.skip(0) =~= all);
        assert(all.take(0) =~= Seq::<Seq<char>>::empty());
    }
    loop
        invariant
            pos <= v@.len(),
            0 <= k <= all.len(),
            all == lines_of(v@),
            lines_of(v@.skip(pos as int)) == all.skip(k),
            fields@ == fields_of_lines(all.take(k)),
        decreases v@.len() - pos,
    {
        if pos >= v.len() {
            proof {
                assert(v@.skip(pos as int) =~= Seq::<char>::empty());
                assert(all.skip(k).len() == 0);
                assert(k == all.len());
                assert(all.take(k) =~= all);
            }
            return fields;
        }
        let step = next_line(v, pos);
        let ghost line = v@.subrange(step.lo as int, step.hi as int);
        proof {
            assert(all.skip(k).len() > 0);
            assert(k < all.len());
            assert(all.skip(k).first() == all[k]);
            assert(line == all[k]);
            assert(all.skip(k).drop_first() =~= all.skip(k + 1));
            assert(lines_of(v@.skip(step.next as int)) =~= (seq![line] + lines_of(
                v@.skip(step.next as int),
            )).drop_first());
            assert(all.take(k + 1).drop_last() =~= all.take(k));
            assert(all.take(k + 1).last() == all[k]);
        }
        let t = trim_bounds(v, step.lo, step.hi);
        let ghost tl = trim(line);
        proof {
            assert(tl == v@.subrange(t.0 as int, t.1 as int));
        }
        let is_blank = t.1 == t.0;
        let is_comment_line = t.1 - t.0 >= 2 && v[t.0] == '/' && v[t.0 + 1] == '/';
        proof {
            assert(is_blank == (tl.len() == 0));
            if t.1 - t.0 >= 2 {
                assert(tl[0] == v@[t.0 as int]);
                assert(tl[1] == v@[t.0 + 1]);
            }
            assert(is_comment_line == is_comment(tl));
        }
        if !is_blank && !is_comment_line {
            let ci = find_char_vec(v, t.0, t.1, ',');
            if ci < t.1 {
                proof {
                    assert(tl.subrange(0, ci - t.0) =~= v@.subrange(t.0 as int, ci as int));
                    assert(tl.subrange(ci - t.0 + 1, tl.len() as int) =~= v@.subrange(
                        ci + 1,
                        t.1 as int,
                    ));
                }
                let kb = trim_bounds(v, t.0, ci);
                let vb = trim_bounds(v, ci + 1, t.1);
                let key = string_from_range(v, kb.0, kb.1);
                let value = string_from_range(v, vb.0, vb.1);
                proof {
                    assert(line_entry(line) == Some(
                        (trim(tl.subrange(0, ci - t.0)), trim(
                            tl.subrange(ci - t.0 + 1, tl.len() as int),
                        )),
                    ));
                }
                fields.insert(key, value);
            } else {
                proof {
                    assert(line_entry(line) is None);
                }
            }
        } else {
            proof {
                assert(line_entry(line) is None);
            }
        }
        proof {
            k = k + 1;
        }
        pos = step.next;
    }
}

/// Decodes a whole descriptor buffer with the given charset.
pub fn decode_with_charset(bytes: &Vec<u8>, charset: Charset) -> (r: String)
    ensures
        charset == Charset::Utf8 ==> r@ == encoding_utf8_of(bytes@),
        charset == Charset::ShiftJis ==> r@ == shift_jis_of(bytes@),
        is_ascii_bytes(bytes@) ==> r@ == ascii_chars_of(bytes@),
{
    match charset {
        Charset::Utf8 => decode_utf8_full(bytes),
        Charset::ShiftJis => decode_shift_jis(bytes),
    }
}

/// Parses raw descriptor bytes into a field mapping.
///
/// A leading UTF-8 byte-order mark selects lossy UTF-8 for the rest of the
/// buffer; otherwise the ASCII-safe pre-scan picks the charset, Shift_JIS by
/// default. Pure-ASCII input parses the same way whichever charset the
/// pre-scan picked.
pub fn parse_descript(bytes: &Vec<u8>) -> (r: Fields)
    ensures
        r@ == descriptor_fields_of(bytes@),
        is_ascii_bytes(bytes@) ==> r@ == fields_of_text(ascii_chars_of(bytes@)),
{
    let content: String = if bytes.len() >= 3 && bytes[0] == 0xEF && bytes[1] == 0xBB
        && bytes[2] == 0xBF {
        let rest = sub_bytes(bytes, 3, bytes.len());
        proof {
            assert(rest@ =~= bytes@.skip(3));
        }
        decode_utf8_lossy(&rest)
    } else {
        let charset = detect_charset(bytes);
        decode_with_charset(bytes, charset)
    };
    proof {
        assert(content@ == decoded_text_of(bytes@));
        if is_ascii_bytes(bytes@) {
            assert(!has_bom(bytes@));
            assert(content@ == ascii_chars_of(bytes@));
        }
    }
    let v = chars_vec(content.as_str());
    parse_text(&v)
}

} // verus!
