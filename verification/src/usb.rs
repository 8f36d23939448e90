//! USB drives: where the table of mounted file systems shows one.

use vstd::prelude::*;
use vstd::string::StringSliceAdditionalSpecFns;
use crate::text::{find, find_line_end, find_word, lemma_line_end, line_end, TextRange};

verus! {

/// Whether `word` stands somewhere in the stretch.
pub open spec fn mentions(s: Seq<u8>, word: Seq<u8>, from: int, to: int) -> bool {
    find(s, word, from, to) < to
}

/// The mount point that the line from `from` to `to` shows, if it shows a
/// USB drive: the line mentions `/media/` and one of the file systems
/// `exfat`, `vfat` and `ntfs`, and the mount point stands between the first
/// ` on ` and the first ` type `.
pub open spec fn mount_point_in(s: Seq<u8>, from: int, to: int) -> Option<TextRange> {
    if mentions(s, "/media/".spec_bytes(), from, to) && (mentions(
        s,
        "exfat".spec_bytes(),
        from,
        to,
    ) || mentions(s, "vfat".spec_bytes(), from, to) || mentions(
        s,
        "ntfs".spec_bytes(),
        from,
        to,
    )) {
        let on = find(s, " on ".spec_bytes(), from, to);
        let kind = find(s, " type ".spec_bytes(), from, to);
        if on < to && kind < to && on + 4 <= kind {
            Some(TextRange { start: (on + 4) as usize, end: kind as usize })
        } else {
            None
        }
    } else {
        None
    }
}

/// The mount points that the lines of the text from `from` on show, in the
/// order of the lines.
pub open spec fn mount_points_from(s: Seq<u8>, from: int) -> Seq<TextRange>
    decreases s.len() - from + 1,
    via mount_points_decreases
{
    if from < 0 || from >= s.len() {
        Seq::empty()
    } else {
        let rest = mount_points_from(s, line_end(s, from) + 1);
        match mount_point_in(s, from, line_end(s, from)) {
            Some(range) => seq![range] + rest,
            None => rest,
        }
    }
}

#[via_fn]
proof fn mount_points_decreases(s: Seq<u8>, from: int) {
    if 0 <= from <= s.len() {
        lemma_line_end(s, from);
    }
}

/// The mount point that a line shows.
fn mount_point_of_line(text: &[u8], from: usize, to: usize) -> (r: Option<TextRange>)
    requires
        from <= to <= text@.len(),
    ensures
        r == mount_point_in(text@, from as int, to as int),
{
    if find_word(text, "/media/", from, to) == to {
        return None;
    }
    if find_word(text, "exfat", from, to) == to && find_word(text, "vfat", from, to) == to
        && find_word(text, "ntfs", from, to) == to {
        return None;
    }
    let on: usize = find_word(text, " on ", from, to);
    let kind: usize = find_word(text, " type ", from, to);
    if on < to && kind < to && kind >= 4 && on <= kind - 4 {
        Some(TextRange { start: on + 4, end: kind })
    } else {
        None
    }
}

/// The mount points of the USB drives that the table of mounted file
/// systems shows, as stretches of the text, in the order of its lines.
pub fn usb_mount_points(text: &[u8]) -> (points: Vec<TextRange>)
    ensures
        points@ == mount_points_from(text@, 0),
{
    let mut points: Vec<TextRange> = Vec::new();
    let len: usize = text.len();
    let mut from: usize = 0;
    assert(points@ + mount_points_from(text@, 0) =~= mount_points_from(text@, 0));
    while from < len
        invariant
            from <= len,
            len == text@.len(),
            points@ + mount_points_from(text@, from as int) == mount_points_from(text@, 0),
        decreases len - from,
    {
        let end: usize = find_line_end(text, from);
        let ghost rest = mount_points_from(text@, end + 1);
        let ghost before = points@;
        proof {
            assert(mount_points_from(text@, len + 1) =~= Seq::<TextRange>::empty());
            assert(mount_points_from(text@, len as int) =~= Seq::<TextRange>::empty());
        }
        match mount_point_of_line(text, from, end) {
            Some(range) => {
                points.push(range);
                assert(points@ + rest =~= before + (seq![range] + rest));
            },
            None => {},
        }
        if end == len {
            from = len;
        } else {
            from = end + 1;
        }
    }
    assert(points@ + Seq::<TextRange>::empty() =~= points@);
    points
}

} // verus!
