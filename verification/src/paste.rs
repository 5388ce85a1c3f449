//! The preview shown before a multi-line paste runs.
use vstd::prelude::*;
use crate::text::{
    byte_len, byte_offset, floor_index, is_ctrl, lemma_byte_offset_full, lemma_byte_offset_mono,
    lemma_byte_offset_step, lemma_floor_index, lemma_split_len_mono, lemma_split_on_len,
    lemma_split_prefix_kept, split_on, str_chars, utf8_width,
};

verus! {

broadcast use vstd::string::group_string_axioms;

pub open spec fn hex_digits() -> Seq<char> {
    seq!['0', '1', '2', '3', '4', '5', '6', '7', '8', '9', 'a', 'b', 'c', 'd', 'e', 'f']
}

/// How one character is shown: tabs as `\t`, control characters as
/// `\xNN`, others as themselves.
pub open spec fn escape_char(c: char) -> Seq<char> {
    if c == '\t' {
        seq!['\\', 't']
    } else if is_ctrl(c) {
        seq!['\\', 'x', hex_digits()[(c as u32 / 16) as int], hex_digits()[(c as u32 % 16) as int]]
    } else {
        seq![c]
    }
}

pub open spec fn escaped(s: Seq<char>) -> Seq<char>
    decreases s.len(),
{
    if s.len() == 0 {
        seq![]
    } else {
        escaped(s.drop_last()) + escape_char(s.last())
    }
}

pub open spec fn preview_marker() -> Seq<char> {
    "... preview truncated; Ctrl-X Ctrl-E opens the full paste"@
}

/// The preview of `text`: its lines, escaped, within `max_lines` lines and
/// `max_bytes` bytes (each at least 1), cut at a character boundary, and a
/// closing marker when something was left out.
#[verifier::opaque]
pub open spec fn preview(text: Seq<char>, max_lines: nat, max_bytes: nat) -> Seq<Seq<char>> {
    let ml = if max_lines == 0 {
        1
    } else {
        max_lines
    };
    let mb = if max_bytes == 0 {
        1
    } else {
        max_bytes
    };
    let k = floor_index(text, mb as int);
    let segs = split_on(text.take(k), '\n');
    let n = segs.len() - 1;
    if n >= ml {
        let shown = segs.take(ml as int).map_values(|l: Seq<char>| escaped(l));
        if k == text.len() && n == ml && text.last() == '\n' {
            shown
        } else {
            shown.push(preview_marker())
        }
    } else {
        let shown = if segs.last().len() > 0 || text.len() == 0 {
            segs.map_values(|l: Seq<char>| escaped(l))
        } else {
            segs.take(n).map_values(|l: Seq<char>| escaped(l))
        };
        if k < text.len() {
            shown.push(preview_marker())
        } else {
            shown
        }
    }
}

fn hex_digit(v: u32) -> (r: char)
    requires
        v < 16,
    ensures
        r == hex_digits()[v as int],
{
    match v {
        0 => '0',
        1 => '1',
        2 => '2',
        3 => '3',
        4 => '4',
        5 => '5',
        6 => '6',
        7 => '7',
        8 => '8',
        9 => '9',
        10 => 'a',
        11 => 'b',
        12 => 'c',
        13 => 'd',
        14 => 'e',
        _ => 'f',
    }
}

fn escape_preview_line(line: &[char]) -> (r: String)
    ensures
        r@ == escaped(line@),
{
    let mut out = String::new();
    let mut i: usize = 0;
    proof {
        assert(line@.take(0) =~= Seq::<char>::empty());
    }
    while i < line.len()
        invariant
            i <= line@.len(),
            out@ == escaped(line@.take(i as int)),
        decreases line.len() - i,
    {
        proof {
            assert(line@.take(i + 1).drop_last() =~= line@.take(i as int));
        }
        let c = line[i];
        let ghost before = out@;
        if c == '\t' {
            out.push('\\');
            out.push('t');
        } else if crate::text::is_control(c) {
            let n = c as u32;
            out.push('\\');
            out.push('x');
            out.push(hex_digit(n / 16));
            out.push(hex_digit(n % 16));
        } else {
            out.push(c);
        }
        proof {
            assert(out@ =~= before + escape_char(c));
        }
        i = i + 1;
    }
    proof {
        assert(line@.take(line@.len() as int) =~= line@);
    }
    out
}

/// The lines of a paste preview; see `preview`.
pub fn preview_lines(text: &str, max_lines: usize, max_bytes: usize) -> (r: Vec<String>)
    ensures
        r@.map_values(|s: String| s@) == preview(text@, max_lines as nat, max_bytes as nat),
{
    let ml: usize = if max_lines == 0 {
        1
    } else {
        max_lines
    };
    let mb: usize = if max_bytes == 0 {
        1
    } else {
        max_bytes
    };
    let v = str_chars(text);
    let ghost esc = |l: Seq<char>| escaped(l);
    let mut lines: Vec<String> = Vec::new();
    let mut current: Vec<char> = Vec::new();
    let mut used: usize = 0;
    let mut stop_line = false;
    let mut stop_bytes = false;
    let mut i: usize = 0;
    proof {
        assert(v@.take(0) =~= Seq::<char>::empty());
        lemma_byte_offset_full(v@);
    }
    while i < v.len()
        invariant_except_break
            i <= v@.len(),
            v@ == text@,
            byte_len(v@) <= usize::MAX,
            esc == (|l: Seq<char>| escaped(l)),
            used == byte_offset(v@, i as int),
            used <= mb,
            lines@.len() < ml,
            lines@.map_values(|s: String| s@) == split_on(v@.take(i as int), '\n').drop_last().map_values(esc),
            current@ == split_on(v@.take(i as int), '\n').last(),
            !stop_line && !stop_bytes,
        ensures
            i <= v@.len(),
            v@ == text@,
            esc == (|l: Seq<char>| escaped(l)),
            stop_bytes ==> !stop_line && i < v@.len() && i == floor_index(v@, mb as int),
            stop_bytes ==> lines@.len() < ml,
            stop_bytes ==> lines@.map_values(|s: String| s@) == split_on(v@.take(i as int), '\n').drop_last().map_values(
                esc,
            ),
            stop_bytes ==> current@ == split_on(v@.take(i as int), '\n').last(),
            stop_line ==> i < v@.len() && lines@.len() == ml && v@[i as int] == '\n',
            stop_line ==> split_on(v@.take(i + 1), '\n').len() - 1 == ml,
            stop_line ==> byte_offset(v@, i + 1) <= mb,
            stop_line ==> lines@.map_values(|s: String| s@) == split_on(v@.take(i + 1), '\n').drop_last().map_values(
                esc,
            ),
            !stop_line && !stop_bytes ==> i == v@.len() && used == byte_offset(v@, i as int) && used <= mb
                && lines@.len() < ml,
            !stop_line && !stop_bytes ==> lines@.map_values(|s: String| s@) == split_on(
                v@.take(i as int),
                '\n',
            ).drop_last().map_values(esc),
            !stop_line && !stop_bytes ==> current@ == split_on(v@.take(i as int), '\n').last(),
        decreases v.len() - i,
    {
        let ghost prev = split_on(v@.take(i as int), '\n');
        proof {
            lemma_split_on_len(v@.take(i as int), '\n');
            assert(v@.take(i + 1).drop_last() =~= v@.take(i as int));
            lemma_byte_offset_step(v@, i as int);
            lemma_byte_offset_mono(v@, i + 1, v@.len() as int);
            lemma_byte_offset_full(v@);
        }
        let c = v[i];
        let len = utf8_width(c);
        if len > mb - used {
            stop_bytes = true;
            proof {
                lemma_floor_index(v@, mb as int, i as int);
            }
            break;
        }
        used = used + len;
        let ghost next = split_on(v@.take(i + 1), '\n');
        if c == '\n' {
            let ghost old_lines = lines@;
            let line = escape_preview_line(current.as_slice());
            lines.push(line);
            current = Vec::new();
            proof {
                assert(next == prev.push(seq![]));
                assert(next.drop_last() =~= prev);
                assert(prev.drop_last().push(prev.last()) =~= prev);
                assert(lines@.map_values(|s: String| s@) =~= old_lines.map_values(|s: String| s@).push(
                    escaped(prev.last()),
                ));
                assert(next.drop_last().map_values(esc) =~= prev.drop_last().map_values(esc).push(
                    escaped(prev.last()),
                ));
                assert(current@ =~= next.last());
            }
            if lines.len() >= ml {
                stop_line = true;
                break;
            }
        } else {
            current.push(c);
            proof {
                assert(next == prev.update(prev.len() - 1, prev.last().push(c)));
                assert(next.drop_last() =~= prev.drop_last());
                assert(current@ =~= next.last());
            }
        }
        i = i + 1;
    }
    proof {
        lemma_preview_limits(text@, max_lines as nat, max_bytes as nat);
    }
    if stop_line {
        proof {
            crate::text::lemma_floor_index_exists(v@, mb as int);
            lemma_preview_line_stop(v@, ml as nat, mb as nat, i as int, floor_index(v@, mb as int));
        }
        assert(i < v.len());
        if i + 1 < v.len() {
            lines.push("... preview truncated; Ctrl-X Ctrl-E opens the full paste".to_owned());
        }
        return lines;
    }
    proof {
        if !stop_bytes {
            lemma_floor_index(v@, mb as int, i as int);
        }
        lemma_preview_end(v@, ml as nat, mb as nat, i as int);
    }
    if !current.is_empty() || v.len() == 0 {
        let ghost old_lines = lines@;
        let line = escape_preview_line(current.as_slice());
        lines.push(line);
        proof {
            assert(lines@.map_values(|s: String| s@) =~= old_lines.map_values(|s: String| s@).push(
                escaped(current@),
            ));
        }
    }
    if stop_bytes {
        lines.push("... preview truncated; Ctrl-X Ctrl-E opens the full paste".to_owned());
    }
    lines
}

/// Limits of 0 count as 1.
proof fn lemma_preview_limits(t: Seq<char>, max_lines: nat, max_bytes: nat)
    ensures
        preview(t, max_lines, max_bytes) == preview(
            t,
            if max_lines == 0 { 1 } else { max_lines },
            if max_bytes == 0 { 1 } else { max_bytes },
        ),
{
    reveal(preview);
}

/// When the preview stops at the newline `t[i]` that completes line `ml`,
/// it is the lines before it, and the marker when text follows.
proof fn lemma_preview_line_stop(t: Seq<char>, ml: nat, mb: nat, i: int, k: int)
    requires
        ml >= 1,
        mb >= 1,
        0 <= i < t.len(),
        t[i] == '\n',
        split_on(t.take(i + 1), '\n').len() - 1 == ml,
        byte_offset(t, i + 1) <= mb,
        k == floor_index(t, mb as int),
        0 <= k <= t.len(),
        k == t.len() || mb < byte_offset(t, k + 1),
    ensures
        preview(t, ml, mb) == if i + 1 < t.len() {
            split_on(t.take(i + 1), '\n').drop_last().map_values(|l: Seq<char>| escaped(l)).push(preview_marker())
        } else {
            split_on(t.take(i + 1), '\n').drop_last().map_values(|l: Seq<char>| escaped(l))
        },
{
    let segs_i = split_on(t.take(i + 1), '\n');
    lemma_split_on_len(t.take(i + 1), '\n');
    if k <= i {
        lemma_byte_offset_mono(t, k + 1, i + 1);
    }
    assert(k >= i + 1);
    lemma_split_len_mono(t, '\n', i + 1, k);
    let segs = split_on(t.take(k), '\n');
    lemma_kept_lines(t, k, i, ml);
    let shown = segs.take(ml as int).map_values(|l: Seq<char>| escaped(l));
    assert(shown =~= segs_i.drop_last().map_values(|l: Seq<char>| escaped(l)));
    lemma_full_read(t, k, i, ml);
    lemma_preview_many_lines(t, ml, mb);
}

/// The text ends with the newline that completed line `ml` exactly when
/// the whole text was read and has `ml` lines.
proof fn lemma_full_read(t: Seq<char>, k: int, i: int, ml: nat)
    requires
        0 <= i < k <= t.len(),
        t[i] == '\n',
        split_on(t.take(i + 1), '\n').len() - 1 == ml,
    ensures
        (k == t.len() && split_on(t.take(k), '\n').len() - 1 == ml && t.last() == '\n') == (i + 1 == t.len()),
{
    if i + 1 == t.len() {
        assert(t.take(k) =~= t.take(i + 1));
    } else if k == t.len() && t.last() == '\n' {
        lemma_split_len_mono(t, '\n', i + 1, t.len() - 1);
        assert(t.take(t.len() as int).drop_last() =~= t.take(t.len() - 1));
        lemma_split_on_len(t.take(t.len() - 1), '\n');
        assert(t.take(k) =~= t.take(t.len() as int));
    }
}

/// The preview when at least `ml` complete lines fit.
proof fn lemma_preview_many_lines(t: Seq<char>, ml: nat, mb: nat)
    requires
        ml >= 1,
        mb >= 1,
        split_on(t.take(floor_index(t, mb as int)), '\n').len() - 1 >= ml,
    ensures
        ({
            let k = floor_index(t, mb as int);
            let segs = split_on(t.take(k), '\n');
            let shown = segs.take(ml as int).map_values(|l: Seq<char>| escaped(l));
            preview(t, ml, mb) == if k == t.len() && segs.len() - 1 == ml && t.last() == '\n' {
                shown
            } else {
                shown.push(preview_marker())
            }
        }),
{
    reveal(preview);
}

/// The first `ml` lines of a longer prefix are those of the prefix
/// through the newline that completed line `ml`.
proof fn lemma_kept_lines(t: Seq<char>, k: int, i: int, ml: nat)
    requires
        0 <= i < k <= t.len(),
        split_on(t.take(i + 1), '\n').len() - 1 == ml,
    ensures
        forall|j: int| 0 <= j < ml ==> #[trigger] split_on(t.take(k), '\n')[j] == split_on(t.take(i + 1), '\n')[j],
        split_on(t.take(k), '\n').len() > ml,
{
    assert(t.take(k).take(i + 1) =~= t.take(i + 1));
    assert forall|j: int| 0 <= j < ml implies #[trigger] split_on(t.take(k), '\n')[j] == split_on(
        t.take(i + 1),
        '\n',
    )[j] by {
        lemma_split_prefix_kept(t.take(k), '\n', i + 1, j);
    }
    crate::text::lemma_split_len_mono(t, '\n', i + 1, k);
}

/// When the preview stops at the byte limit or the end of the text, it is
/// the complete lines read, the partial one if any, and the marker when
/// text was left out.
proof fn lemma_preview_end(t: Seq<char>, ml: nat, mb: nat, i: int)
    requires
        ml >= 1,
        mb >= 1,
        0 <= i <= t.len(),
        i == floor_index(t, mb as int),
        split_on(t.take(i), '\n').len() - 1 < ml,
    ensures
        ({
            let segs = split_on(t.take(i), '\n');
            let done = segs.drop_last().map_values(|l: Seq<char>| escaped(l));
            let shown = if segs.last().len() > 0 || t.len() == 0 {
                done.push(escaped(segs.last()))
            } else {
                done
            };
            preview(t, ml, mb) == if i < t.len() {
                shown.push(preview_marker())
            } else {
                shown
            }
        }),
{
    reveal(preview);
    let segs = split_on(t.take(i), '\n');
    lemma_split_on_len(t.take(i), '\n');
    assert(segs.take(segs.len() - 1) =~= segs.drop_last());
    assert(segs.map_values(|l: Seq<char>| escaped(l)) =~= segs.drop_last().map_values(|l: Seq<char>| escaped(l)).push(
        escaped(segs.last()),
    ));
}

} // verus!
