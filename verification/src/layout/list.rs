//! List markers and indentation rules: two columns of indent per nesting
//! level, unordered bullets cycling `•`, `◦`, `▪` by depth (ASCII `-`, `*`,
//! `+`), ordered labels honouring the list's start and padded to the widest
//! label, task boxes `☑`/`☐` (ASCII `[x]`/`[ ]`).
use vstd::prelude::*;
use crate::util::text::{decimal, push_char, push_decimal, push_spaces, push_str, spaces, to_owned};
use crate::util::unicode::{display_width, width};

verus! {

/// Columns of indentation added per nesting level.
pub const INDENT_PER_LEVEL: usize = 2;

/// The bullet for a nesting depth.
pub open spec fn bullet_spec(depth: usize, unicode: bool) -> Seq<char> {
    let k = depth % 3;
    if unicode {
        if k == 0 { "•"@ } else if k == 1 { "◦"@ } else { "▪"@ }
    } else {
        if k == 0 { "-"@ } else if k == 1 { "*"@ } else { "+"@ }
    }
}

/// The bullet for a nesting depth (0-based), cycling every three levels.
pub fn bullet(depth: usize, unicode: bool) -> (s: &'static str)
    ensures
        s@ == bullet_spec(depth, unicode),
{
    let k = depth % 3;
    if unicode {
        if k == 0 { "•" } else if k == 1 { "◦" } else { "▪" }
    } else {
        if k == 0 { "-" } else if k == 1 { "*" } else { "+" }
    }
}

/// The checkbox for a task item.
pub fn task_box(checked: bool, unicode: bool) -> (s: &'static str)
    ensures
        s@ == (if unicode {
            if checked { "☑"@ } else { "☐"@ }
        } else {
            if checked { "[x]"@ } else { "[ ]"@ }
        }),
{
    if unicode {
        if checked { "☑" } else { "☐" }
    } else {
        if checked { "[x]" } else { "[ ]" }
    }
}

/// The number of the `index`-th item of a list starting at `start` (1 when
/// unset), saturating at `u64::MAX`.
pub open spec fn item_number(start: Option<u64>, index: usize) -> u64 {
    let s: int = match start {
        Some(v) => v as int,
        None => 1,
    };
    if s + index > u64::MAX { u64::MAX } else { (s + index) as u64 }
}

/// The number label (`"N."`) of the `index`-th item (0-based) of an ordered
/// list, honouring the list's `start` value.
pub fn ordered_label(start: Option<u64>, index: usize) -> (s: String)
    ensures
        s@ == decimal(item_number(start, index) as nat) + "."@,
{
    let s: u64 = match start {
        Some(v) => v,
        None => 1,
    };
    let n: u64 = if index as u64 > u64::MAX - s { u64::MAX } else { s + index as u64 };
    let mut out = String::new();
    push_decimal(&mut out, n);
    push_char(&mut out, '.');
    proof {
        reveal_strlit(".");
        assert(seq!['.'] == "."@);
    }
    out
}

/// The marker text of an item, including the trailing space: the ordered
/// label left-aligned in `marker_width - 1` columns, or the bullet of the
/// depth.
pub fn marker(ordered: bool, start: Option<u64>, index: usize, depth: usize, unicode: bool, marker_width: usize) -> (s: String)
    ensures
        ordered ==> ({
            let label = decimal(item_number(start, index) as nat) + "."@;
            let w: int = if marker_width >= 1 { marker_width - 1 } else { 0 };
            let pad: int = if display_width(label) < w { w - display_width(label) } else { 0 };
            s@ == label + spaces(pad as nat) + " "@
        }),
        !ordered ==> s@ == bullet_spec(depth, unicode) + " "@,
{
    if ordered {
        let label = ordered_label(start, index);
        proof {
            crate::util::text::lemma_decimal_len(item_number(start, index) as nat);
            reveal_strlit(".");
        }
        let lw = width(label.as_str());
        let w = if marker_width >= 1 { marker_width - 1 } else { 0 };
        let mut out = label;
        if lw < w {
            push_spaces(&mut out, w - lw);
        }
        push_str(&mut out, " ");
        out
    } else {
        let mut out = to_owned(bullet(depth, unicode));
        push_str(&mut out, " ");
        out
    }
}

/// Width of the widest marker of a list (so items line up): one more than
/// the width of the last item's label, or of the top-level bullet.
pub fn marker_width(ordered: bool, start: Option<u64>, item_count: usize, unicode: bool) -> (w: usize)
    ensures
        ordered ==> w == display_width(decimal(item_number(start, if item_count >= 1 { (item_count - 1) as usize } else { 0 }) as nat) + "."@) + 1,
        !ordered ==> w == display_width(bullet_spec(0, unicode)) + 1,
{
    if ordered {
        let last = ordered_label(start, if item_count >= 1 { item_count - 1 } else { 0 });
        proof {
            crate::util::text::lemma_decimal_len(item_number(start, if item_count >= 1 { (item_count - 1) as usize } else { 0 }) as nat);
            reveal_strlit(".");
        }
        width(last.as_str()) + 1
    } else {
        let b = bullet(0, unicode);
        proof {
            reveal_strlit("•");
            reveal_strlit("-");
        }
        width(b) + 1
    }
}

} // verus!
