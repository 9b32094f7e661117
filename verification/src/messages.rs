//! What the meter window does with each message it receives.

use vstd::prelude::*;

verus! {

/// Hit-test code of the client area, carried in the low word of a
/// cursor message's parameter.
pub const HIT_CLIENT: u16 = 1;

/// Code of the message sent while a window is created.
pub const WM_CREATE: u32 = 0x0001;
/// Code of the message sent while a window is destroyed.
pub const WM_DESTROY: u32 = 0x0002;
/// Code of the message asking a window to repaint.
pub const WM_PAINT: u32 = 0x000F;
/// Code of the message asking a window to set the cursor.
pub const WM_SETCURSOR: u32 = 0x0020;
/// Code of the message carrying raw input.
pub const WM_INPUT: u32 = 0x00FF;

/// The window messages the meter tells apart.
#[derive(Clone, Copy, Debug, PartialEq, Eq, Structural)]
pub enum WindowMessage {
    /// The window is being created.
    Create,
    /// Raw input arrived from the mouse.
    Input,
    /// The window must be repainted.
    Paint,
    /// The cursor moved over the window; `lparam` carries the hit-test code
    /// in its low word.
    SetCursor { lparam: isize },
    /// The window is being destroyed.
    Destroy,
    /// Any other message.
    Other,
}

/// What the window procedure does in answer to a message.
#[derive(Clone, Copy, Debug, PartialEq, Eq, Structural)]
pub enum MessageAction {
    /// Register for raw mouse input; answer 0.
    RegisterRawInput,
    /// Record one polling event; answer 0.
    RecordEvent,
    /// Draw the statistics; answer 0.
    Repaint,
    /// Show the arrow cursor; answer 1.
    ShowArrowCursor,
    /// Stop the message loop and post the quit message; answer 0.
    Quit,
    /// Let the default window procedure answer.
    PassToDefault,
}

/// The message a code and its parameter stand for.
pub open spec fn spec_classify(msg: u32, lparam: isize) -> WindowMessage {
    if msg == WM_CREATE {
        WindowMessage::Create
    } else if msg == WM_INPUT {
        WindowMessage::Input
    } else if msg == WM_PAINT {
        WindowMessage::Paint
    } else if msg == WM_SETCURSOR {
        WindowMessage::SetCursor { lparam }
    } else if msg == WM_DESTROY {
        WindowMessage::Destroy
    } else {
        WindowMessage::Other
    }
}

/// Names the message that a code and its parameter stand for.
pub fn classify(msg: u32, lparam: isize) -> (m: WindowMessage)
    ensures
        m == spec_classify(msg, lparam),
{
    if msg == WM_CREATE {
        WindowMessage::Create
    } else if msg == WM_INPUT {
        WindowMessage::Input
    } else if msg == WM_PAINT {
        WindowMessage::Paint
    } else if msg == WM_SETCURSOR {
        WindowMessage::SetCursor { lparam }
    } else if msg == WM_DESTROY {
        WindowMessage::Destroy
    } else {
        WindowMessage::Other
    }
}

/// The low 16 bits of a message parameter.
pub open spec fn low_word(x: isize) -> u16 {
    x as u16
}

/// Whether a cursor message's parameter names the client area.
pub fn is_client_area(lparam: isize) -> (r: bool)
    ensures
        r == (low_word(lparam) == HIT_CLIENT),
{
    let masked: u32 = lparam as u32 & 0xFFFF;
    assert(masked == (lparam as u16) as u32) by (bit_vector)
        requires
            masked == (lparam as u32) & 0xFFFFu32,
    ;
    masked == 1
}

/// The action the window takes for a message.
pub open spec fn spec_action(msg: WindowMessage) -> MessageAction {
    match msg {
        WindowMessage::Create => MessageAction::RegisterRawInput,
        WindowMessage::Input => MessageAction::RecordEvent,
        WindowMessage::Paint => MessageAction::Repaint,
        WindowMessage::SetCursor { lparam } => if low_word(lparam) == HIT_CLIENT {
            MessageAction::ShowArrowCursor
        } else {
            MessageAction::PassToDefault
        },
        WindowMessage::Destroy => MessageAction::Quit,
        WindowMessage::Other => MessageAction::PassToDefault,
    }
}

/// The cursor message is answered by the arrow cursor exactly when the low
/// 16 bits of its parameter's bit pattern hold the client-area code 1,
/// whatever the high bits carry (such as the mouse message in the high word).
pub proof fn lemma_cursor_action_reads_low_word(lparam: isize)
    ensures
        (spec_action(WindowMessage::SetCursor { lparam }) == MessageAction::ShowArrowCursor) <==> (
        lparam as u64) % 0x10000 == 1,
        (spec_action(WindowMessage::SetCursor { lparam }) != MessageAction::ShowArrowCursor) ==> (
        spec_action(WindowMessage::SetCursor { lparam }) == MessageAction::PassToDefault),
{
    assert(((lparam as u16) == 1u16) == ((lparam as u64) % 0x10000u64 == 1u64)) by (bit_vector);
}

/// What the window procedure answers to each message code: 0 after
/// registering for raw input (code 0x0001), recording an event (0x00FF),
/// repainting (0x000F) or quitting (0x0002); 1 after showing the arrow cursor
/// for a cursor message (0x0020) over the client area; and the default
/// procedure's answer for any other message.
pub proof fn lemma_message_table(msg: u32, lparam: isize)
    ensures
        ({
            let a = spec_action(spec_classify(msg, lparam));
            &&& msg == 0x0001 ==> a == MessageAction::RegisterRawInput
            &&& msg == 0x00FF ==> a == MessageAction::RecordEvent
            &&& msg == 0x000F ==> a == MessageAction::Repaint
            &&& msg == 0x0002 ==> a == MessageAction::Quit
            &&& msg == 0x0020 ==> (a == MessageAction::ShowArrowCursor <==> (lparam as u64) % 0x10000
                == 1)
            &&& msg == 0x0020 && (lparam as u64) % 0x10000 != 1 ==> a == MessageAction::PassToDefault
            &&& (msg != 0x0001 && msg != 0x00FF && msg != 0x000F && msg != 0x0002 && msg != 0x0020)
                ==> a == MessageAction::PassToDefault
            &&& a.spec_answer() == (if a == MessageAction::ShowArrowCursor {
                Some(1isize)
            } else if a == MessageAction::PassToDefault {
                None
            } else {
                Some(0isize)
            })
            &&& (a == MessageAction::Quit <==> msg == 0x0002)
        }),
{
    lemma_cursor_action_reads_low_word(lparam);
}

/// Two cursor messages whose parameters share their low 16 bits are
/// answered alike.
pub proof fn lemma_cursor_action_ignores_high_bits(a: isize, b: isize)
    requires
        (a as u64) % 0x10000 == (b as u64) % 0x10000,
    ensures
        spec_action(WindowMessage::SetCursor { lparam: a }) == spec_action(
            WindowMessage::SetCursor { lparam: b },
        ),
{
    lemma_cursor_action_reads_low_word(a);
    lemma_cursor_action_reads_low_word(b);
}

/// Decides what the window does with a message.
pub fn handle_message(msg: WindowMessage) -> (a: MessageAction)
    ensures
        a == spec_action(msg),
{
    match msg {
        WindowMessage::Create => MessageAction::RegisterRawInput,
        WindowMessage::Input => MessageAction::RecordEvent,
        WindowMessage::Paint => MessageAction::Repaint,
        WindowMessage::SetCursor { lparam } => {
            if is_client_area(lparam) {
                MessageAction::ShowArrowCursor
            } else {
                MessageAction::PassToDefault
            }
        },
        WindowMessage::Destroy => MessageAction::Quit,
        WindowMessage::Other => MessageAction::PassToDefault,
    }
}

impl MessageAction {
    /// The window procedure's answer after the action, or `None` where the
    /// default procedure answers.
    pub open spec fn spec_answer(self) -> Option<isize> {
        match self {
            MessageAction::ShowArrowCursor => Some(1),
            MessageAction::PassToDefault => None,
            _ => Some(0),
        }
    }

    /// The window procedure's answer after the action.
    pub fn answer(&self) -> (r: Option<isize>)
        ensures
            r == self.spec_answer(),
    {
        match self {
            MessageAction::ShowArrowCursor => Some(1),
            MessageAction::PassToDefault => None,
            _ => Some(0),
        }
    }

    /// Whether the message loop keeps running after the action.
    pub fn keeps_running(&self) -> (r: bool)
        ensures
            r == !(*self is Quit),
    {
        !matches!(self, MessageAction::Quit)
    }
}

} // verus!
