//! The decisions of the terminal lifecycle: which steps entering the UI takes
//! for a set of options, the state word that records them, and the steps that
//! undo them in reverse order. Performing the steps is the application's job.
use vstd::prelude::*;

verus! {

/// Options for entering the terminal UI.
#[derive(Debug, Clone, Copy, PartialEq, Eq, Structural)]
pub struct TerminalOptions {
    /// Switch to the alternate screen buffer.
    pub alternate_screen: bool,
    /// Enable mouse reporting.
    pub mouse: bool,
    /// Hide the cursor while the UI is drawn.
    pub hide_cursor: bool,
    /// Request kitty keyboard-enhancement flags (off by default: enabling it
    /// costs a terminal round trip and the keymap does not need it).
    pub keyboard_enhancement: bool,
}

impl Default for TerminalOptions {
    fn default() -> (o: Self)
        ensures
            o == (TerminalOptions {
                alternate_screen: true,
                mouse: false,
                hide_cursor: true,
                keyboard_enhancement: false,
            }),
    {
        TerminalOptions { alternate_screen: true, mouse: false, hide_cursor: true, keyboard_enhancement: false }
    }
}

/// Bit of the state word: raw mode is enabled.
pub const STATE_RAW: u8 = 1;
/// Bit of the state word: the alternate screen is active.
pub const STATE_ALT: u8 = 2;
/// Bit of the state word: mouse capture is active.
pub const STATE_MOUSE: u8 = 4;
/// Bit of the state word: the cursor is hidden.
pub const STATE_CURSOR_HIDDEN: u8 = 8;
/// Bit of the state word: keyboard enhancement flags were pushed.
pub const STATE_KEYBOARD: u8 = 16;

/// One change made to the terminal on entering the UI.
#[derive(Debug, Clone, Copy, PartialEq, Eq, Structural)]
pub enum EnterStep {
    /// Enable raw mode.
    RawMode,
    /// Enter the alternate screen.
    AlternateScreen,
    /// Enable mouse capture.
    MouseCapture,
    /// Hide the cursor.
    HideCursor,
    /// Push keyboard enhancement flags.
    KeyboardEnhancement,
}

/// One change made to the terminal on leaving the UI.
#[derive(Debug, Clone, Copy, PartialEq, Eq, Structural)]
pub enum RestoreStep {
    /// Pop keyboard enhancement flags.
    PopKeyboard,
    /// Show the cursor.
    ShowCursor,
    /// Disable mouse capture.
    DisableMouse,
    /// Leave the alternate screen.
    LeaveAlternateScreen,
    /// Reset every SGR attribute so no styling bleeds into the shell.
    ResetAttributes,
    /// Disable raw mode.
    DisableRawMode,
}

/// The state bit an entry step sets.
pub open spec fn step_bit(s: EnterStep) -> u8 {
    match s {
        EnterStep::RawMode => 1,
        EnterStep::AlternateScreen => 2,
        EnterStep::MouseCapture => 4,
        EnterStep::HideCursor => 8,
        EnterStep::KeyboardEnhancement => 16,
    }
}

/// The restore step that undoes an entry step.
pub open spec fn undo(s: EnterStep) -> RestoreStep {
    match s {
        EnterStep::RawMode => RestoreStep::DisableRawMode,
        EnterStep::AlternateScreen => RestoreStep::LeaveAlternateScreen,
        EnterStep::MouseCapture => RestoreStep::DisableMouse,
        EnterStep::HideCursor => RestoreStep::ShowCursor,
        EnterStep::KeyboardEnhancement => RestoreStep::PopKeyboard,
    }
}

/// The steps of entering the UI: raw mode, then each requested feature;
/// keyboard enhancement only where asking for it is safe.
pub open spec fn enter_spec(o: TerminalOptions, keyboard_safe: bool) -> Seq<EnterStep> {
    let s0 = seq![EnterStep::RawMode];
    let s1 = if o.alternate_screen { s0.push(EnterStep::AlternateScreen) } else { s0 };
    let s2 = if o.mouse { s1.push(EnterStep::MouseCapture) } else { s1 };
    let s3 = if o.hide_cursor { s2.push(EnterStep::HideCursor) } else { s2 };
    if o.keyboard_enhancement && keyboard_safe { s3.push(EnterStep::KeyboardEnhancement) } else { s3 }
}

/// Whether a state bit is set.
pub open spec fn has_bit(state: u8, bit: u8) -> bool {
    state & bit != 0
}

/// The steps that restore a terminal in `state`, in reverse order of entry,
/// with the attribute reset just before raw mode goes; nothing at all for a
/// terminal that owes nothing.
pub open spec fn restore_spec(state: u8) -> Seq<RestoreStep> {
    if state == 0 {
        Seq::empty()
    } else {
        let r0: Seq<RestoreStep> = Seq::empty();
        let r1 = if has_bit(state, 16) { r0.push(RestoreStep::PopKeyboard) } else { r0 };
        let r2 = if has_bit(state, 8) { r1.push(RestoreStep::ShowCursor) } else { r1 };
        let r3 = if has_bit(state, 4) { r2.push(RestoreStep::DisableMouse) } else { r2 };
        let r4 = if has_bit(state, 2) { r3.push(RestoreStep::LeaveAlternateScreen) } else { r3 };
        let r5 = r4.push(RestoreStep::ResetAttributes);
        if has_bit(state, 1) { r5.push(RestoreStep::DisableRawMode) } else { r5 }
    }
}

/// The state word after the steps `s`.
pub open spec fn state_of(s: Seq<EnterStep>) -> u8
    decreases s.len(),
{
    if s.len() == 0 {
        0
    } else {
        state_of(s.drop_last()) | step_bit(s.last())
    }
}

/// What undoing the entry steps `s` takes: each step's undo, the last step
/// first, with the attribute reset just before raw mode is left.
pub open spec fn undo_all(s: Seq<EnterStep>) -> Seq<RestoreStep>
    decreases s.len(),
{
    if s.len() == 0 {
        Seq::empty()
    } else {
        let head = if s.last() == EnterStep::RawMode {
            seq![RestoreStep::ResetAttributes, RestoreStep::DisableRawMode]
        } else {
            seq![undo(s.last())]
        };
        head + undo_all(s.drop_last())
    }
}

proof fn lemma_bit_or(x: u8, b: u8)
    by (bit_vector)
    requires
        b == 1 || b == 2 || b == 4 || b == 8 || b == 16,
    ensures
        ((x | b) & 1 != 0) == ((x & 1 != 0) || b == 1),
        ((x | b) & 2 != 0) == ((x & 2 != 0) || b == 2),
        ((x | b) & 4 != 0) == ((x & 4 != 0) || b == 4),
        ((x | b) & 8 != 0) == ((x & 8 != 0) || b == 8),
        ((x | b) & 16 != 0) == ((x & 16 != 0) || b == 16),
        (x | b) != 0,
{
}

proof fn lemma_zero_bits(x: u8)
    by (bit_vector)
    requires
        x == 0,
    ensures
        x & 1 == 0 && x & 2 == 0 && x & 4 == 0 && x & 8 == 0 && x & 16 == 0,
{
}

proof fn lemma_state_push(s: Seq<EnterStep>, e: EnterStep)
    ensures
        state_of(s.push(e)) == state_of(s) | step_bit(e),
{
    assert(s.push(e).drop_last() == s);
}

/// Restoring undoes entering: for any options, the restore steps for the
/// state that entering records are the undo of every entry step, in reverse
/// order, with the attribute reset just before raw mode is left; and a
/// terminal that was never entered owes nothing.
pub proof fn law_restore_undoes_enter(o: TerminalOptions, keyboard_safe: bool)
    ensures
        restore_spec(state_of(enter_spec(o, keyboard_safe))) == undo_all(enter_spec(o, keyboard_safe)),
        restore_spec(state_of(Seq::empty())) == Seq::<RestoreStep>::empty(),
{
    let s0 = seq![EnterStep::RawMode];
    let s1 = if o.alternate_screen { s0.push(EnterStep::AlternateScreen) } else { s0 };
    let s2 = if o.mouse { s1.push(EnterStep::MouseCapture) } else { s1 };
    let s3 = if o.hide_cursor { s2.push(EnterStep::HideCursor) } else { s2 };
    let s4 = if o.keyboard_enhancement && keyboard_safe { s3.push(EnterStep::KeyboardEnhancement) } else { s3 };
    assert(s4 == enter_spec(o, keyboard_safe));
    lemma_zero_bits(0u8);
    assert(Seq::<EnterStep>::empty().push(EnterStep::RawMode) == s0);
    lemma_state_push(Seq::empty(), EnterStep::RawMode);
    lemma_bit_or(0u8, 1u8);
    let x0 = state_of(s0);
    if o.alternate_screen {
        lemma_state_push(s0, EnterStep::AlternateScreen);
        lemma_bit_or(x0, 2u8);
    }
    let x1 = state_of(s1);
    if o.mouse {
        lemma_state_push(s1, EnterStep::MouseCapture);
        lemma_bit_or(x1, 4u8);
    }
    let x2 = state_of(s2);
    if o.hide_cursor {
        lemma_state_push(s2, EnterStep::HideCursor);
        lemma_bit_or(x2, 8u8);
    }
    let x3 = state_of(s3);
    if o.keyboard_enhancement && keyboard_safe {
        lemma_state_push(s3, EnterStep::KeyboardEnhancement);
        lemma_bit_or(x3, 16u8);
    }
    let x4 = state_of(s4);
    assert(has_bit(x4, 1));
    assert(has_bit(x4, 2) == o.alternate_screen);
    assert(has_bit(x4, 4) == o.mouse);
    assert(has_bit(x4, 8) == o.hide_cursor);
    assert(has_bit(x4, 16) == (o.keyboard_enhancement && keyboard_safe));
    assert(x4 != 0);
    let u0 = seq![RestoreStep::ResetAttributes, RestoreStep::DisableRawMode];
    assert(s0.drop_last() == Seq::<EnterStep>::empty());
    assert(undo_all(s0) == u0 + undo_all(Seq::<EnterStep>::empty()));
    assert(undo_all(s0) =~= u0);
    let u1 = if o.alternate_screen { seq![RestoreStep::LeaveAlternateScreen] + u0 } else { u0 };
    if o.alternate_screen {
        assert(s1.drop_last() == s0);
        assert(s1.last() == EnterStep::AlternateScreen);
    }
    assert(undo_all(s1) == u1);
    let u2 = if o.mouse { seq![RestoreStep::DisableMouse] + u1 } else { u1 };
    if o.mouse {
        assert(s2.drop_last() == s1);
        assert(s2.last() == EnterStep::MouseCapture);
    }
    assert(undo_all(s2) == u2);
    let u3 = if o.hide_cursor { seq![RestoreStep::ShowCursor] + u2 } else { u2 };
    if o.hide_cursor {
        assert(s3.drop_last() == s2);
        assert(s3.last() == EnterStep::HideCursor);
    }
    assert(undo_all(s3) == u3);
    let u4 = if o.keyboard_enhancement && keyboard_safe { seq![RestoreStep::PopKeyboard] + u3 } else { u3 };
    if o.keyboard_enhancement && keyboard_safe {
        assert(s4.drop_last() == s3);
        assert(s4.last() == EnterStep::KeyboardEnhancement);
    }
    assert(undo_all(s4) == u4);
    assert(restore_spec(x4) =~= undo_all(s4));
    lemma_zero_bits(0u8);
}

/// The steps of entering the UI with `options`.
pub fn enter_plan(options: TerminalOptions, keyboard_safe: bool) -> (steps: Vec<EnterStep>)
    ensures
        steps@ == enter_spec(options, keyboard_safe),
{
    let mut steps = vec![EnterStep::RawMode];
    if options.alternate_screen {
        steps.push(EnterStep::AlternateScreen);
    }
    if options.mouse {
        steps.push(EnterStep::MouseCapture);
    }
    if options.hide_cursor {
        steps.push(EnterStep::HideCursor);
    }
    if options.keyboard_enhancement && keyboard_safe {
        steps.push(EnterStep::KeyboardEnhancement);
    }
    assert(steps@ =~= enter_spec(options, keyboard_safe));
    steps
}

/// The state bit an entry step sets.
pub fn bit_of(step: EnterStep) -> (b: u8)
    ensures
        b == step_bit(step),
{
    match step {
        EnterStep::RawMode => STATE_RAW,
        EnterStep::AlternateScreen => STATE_ALT,
        EnterStep::MouseCapture => STATE_MOUSE,
        EnterStep::HideCursor => STATE_CURSOR_HIDDEN,
        EnterStep::KeyboardEnhancement => STATE_KEYBOARD,
    }
}

/// The steps that restore a terminal in `state`.
pub fn restore_plan(state: u8) -> (steps: Vec<RestoreStep>)
    ensures
        steps@ == restore_spec(state),
{
    let mut steps: Vec<RestoreStep> = Vec::new();
    if state == 0 {
        assert(steps@ =~= restore_spec(state));
        return steps;
    }
    if state & STATE_KEYBOARD != 0 {
        steps.push(RestoreStep::PopKeyboard);
    }
    if state & STATE_CURSOR_HIDDEN != 0 {
        steps.push(RestoreStep::ShowCursor);
    }
    if state & STATE_MOUSE != 0 {
        steps.push(RestoreStep::DisableMouse);
    }
    if state & STATE_ALT != 0 {
        steps.push(RestoreStep::LeaveAlternateScreen);
    }
    steps.push(RestoreStep::ResetAttributes);
    if state & STATE_RAW != 0 {
        steps.push(RestoreStep::DisableRawMode);
    }
    assert(steps@ =~= restore_spec(state));
    steps
}

} // verus!
