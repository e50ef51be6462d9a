//! Choosing the operation from the keyboard: the keys, and what each key
//! press means.
use vstd::prelude::*;
use crate::error::TfocusError;
use crate::types::Operation;

verus! {

/// Reads the operation the user picks from the keyboard.
pub struct InputHandler;

impl InputHandler {
    /// A new input handler; creating one always succeeds.
    pub fn new() -> (res: Result<Self, TfocusError>)
        ensures
            res is Ok,
    {
        Ok(InputHandler)
    }
}

/// A key of the keyboard, as far as choosing an operation tells keys apart.
#[derive(Clone, Copy, Debug, PartialEq, Eq, Structural)]
pub enum KeyCode {
    Char(char),
    Esc,
    Enter,
    Backspace,
    Tab,
    Up,
    Down,
    Left,
    Right,
    /// Any other key.
    Other,
}

/// The modifier keys held, as bits: shift 1, control 2, alt 4, super 8,
/// hyper 16, meta 32.
#[derive(Clone, Copy, Debug, PartialEq, Eq, Structural)]
pub struct KeyModifiers {
    pub bits: u8,
}

impl KeyModifiers {
    /// No modifier.
    pub fn none() -> (m: Self)
        ensures
            m.bits == 0,
    {
        KeyModifiers { bits: 0 }
    }

    /// Shift alone.
    pub fn shift() -> (m: Self)
        ensures
            m.bits == 1,
    {
        KeyModifiers { bits: 1 }
    }

    /// Control alone.
    pub fn control() -> (m: Self)
        ensures
            m.bits == 2,
    {
        KeyModifiers { bits: 2 }
    }

    /// The modifiers with the given bits.
    pub fn from_bits(bits: u8) -> (m: Self)
        ensures
            m.bits == bits,
    {
        KeyModifiers { bits }
    }
}

/// Whether a key was pressed, repeated or released.
#[derive(Clone, Copy, Debug, PartialEq, Eq, Structural)]
pub enum KeyEventKind {
    Press,
    Repeat,
    Release,
}

/// A key event.
#[derive(Clone, Copy, Debug, PartialEq, Eq, Structural)]
pub struct KeyEvent {
    pub code: KeyCode,
    pub modifiers: KeyModifiers,
    pub kind: KeyEventKind,
}

impl KeyEvent {
    /// The press of `code` with `modifiers` held.
    pub fn new(code: KeyCode, modifiers: KeyModifiers) -> (k: Self)
        ensures
            k.code == code,
            k.modifiers == modifiers,
            k.kind == KeyEventKind::Press,
    {
        KeyEvent { code, modifiers, kind: KeyEventKind::Press }
    }
}

/// What a key press does while the operation is being chosen.
#[derive(Clone, Copy, Debug, PartialEq, Eq, Structural)]
pub enum OperationInputAction {
    Select(Operation),
    Cancel,
    Ignore,
}

/// Esc, or Ctrl with C (either case), cancels; with no modifier or with
/// shift alone, P picks plan and A picks apply (either case); every other
/// key is ignored.
pub open spec fn spec_parse_operation_key(key: KeyEvent) -> OperationInputAction {
    match key.code {
        KeyCode::Esc => OperationInputAction::Cancel,
        KeyCode::Char(c) => if key.modifiers.bits & 2 == 2 && (c == 'c' || c == 'C') {
            OperationInputAction::Cancel
        } else if !(key.modifiers.bits == 0 || key.modifiers.bits == 1) {
            OperationInputAction::Ignore
        } else if c == 'p' || c == 'P' {
            OperationInputAction::Select(Operation::Plan)
        } else if c == 'a' || c == 'A' {
            OperationInputAction::Select(Operation::Apply)
        } else {
            OperationInputAction::Ignore
        },
        _ => OperationInputAction::Ignore,
    }
}

/// What each key press may do, told apart by the key: only P or A (either
/// case) with no modifier or shift alone picks an operation, P plan and A
/// apply; only Esc, or C (either case) with control held, cancels; every
/// other key (Enter, arrows, digits, other letters) is ignored.
pub proof fn lemma_operation_keys(key: KeyEvent)
    ensures
        spec_parse_operation_key(key) == OperationInputAction::Select(Operation::Plan) <==> (
        key.code == KeyCode::Char('p') || key.code == KeyCode::Char('P')) && (key.modifiers.bits
            == 0 || key.modifiers.bits == 1),
        spec_parse_operation_key(key) == OperationInputAction::Select(Operation::Apply) <==> (
        key.code == KeyCode::Char('a') || key.code == KeyCode::Char('A')) && (key.modifiers.bits
            == 0 || key.modifiers.bits == 1),
        spec_parse_operation_key(key) == OperationInputAction::Cancel <==> key.code == KeyCode::Esc
            || ((key.code == KeyCode::Char('c') || key.code == KeyCode::Char('C'))
            && key.modifiers.bits & 2 == 2),
        !(key.code is Esc) && !(key.code is Char) ==> spec_parse_operation_key(key)
            == OperationInputAction::Ignore,
{
    let b: u8 = key.modifiers.bits;
    if b == 0 || b == 1 {
        assert(b & 2 != 2) by (bit_vector)
            requires
                b == 0 || b == 1,
        ;
    }
}

/// What a key does while the operation is being chosen (see
/// [`spec_parse_operation_key`]).
pub fn parse_operation_key(key: KeyEvent) -> (action: OperationInputAction)
    ensures
        action == spec_parse_operation_key(key),
        action is Select ==> (key.code == KeyCode::Char('p') || key.code == KeyCode::Char('P')
            || key.code == KeyCode::Char('a') || key.code == KeyCode::Char('A')) && (
        key.modifiers.bits == 0 || key.modifiers.bits == 1),
        action == OperationInputAction::Select(Operation::Plan) ==> (key.code == KeyCode::Char('p')
            || key.code == KeyCode::Char('P')),
        action == OperationInputAction::Select(Operation::Apply) ==> (key.code == KeyCode::Char(
            'a',
        ) || key.code == KeyCode::Char('A')),
        !(key.code is Esc) && !(key.code is Char) ==> action == OperationInputAction::Ignore,
{
    proof {
        lemma_operation_keys(key);
    }
    match key.code {
        KeyCode::Esc => OperationInputAction::Cancel,
        KeyCode::Char(c) => {
            if key.modifiers.bits & 2 == 2 && (c == 'c' || c == 'C') {
                return OperationInputAction::Cancel;
            }
            let is_plain_input = key.modifiers.bits == 0 || key.modifiers.bits == 1;
            if !is_plain_input {
                return OperationInputAction::Ignore;
            }
            if c == 'p' || c == 'P' {
                OperationInputAction::Select(Operation::Plan)
            } else if c == 'a' || c == 'A' {
                OperationInputAction::Select(Operation::Apply)
            } else {
                OperationInputAction::Ignore
            }
        },
        _ => OperationInputAction::Ignore,
    }
}

/// What a key event does while the operation is being chosen: only presses
/// count; repeats and releases are ignored.
pub fn operation_input_for_event(key: KeyEvent) -> (action: OperationInputAction)
    ensures
        action == (if key.kind == KeyEventKind::Press {
            spec_parse_operation_key(key)
        } else {
            OperationInputAction::Ignore
        }),
        action is Select ==> key.kind == KeyEventKind::Press && (key.code == KeyCode::Char('p')
            || key.code == KeyCode::Char('P') || key.code == KeyCode::Char('a') || key.code
            == KeyCode::Char('A')),
{
    proof {
        lemma_operation_keys(key);
    }
    match key.kind {
        KeyEventKind::Press => parse_operation_key(key),
        _ => OperationInputAction::Ignore,
    }
}

} // verus!
