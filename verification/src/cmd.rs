//! The commands of the chat protocol, and how a text frame is read as one.
//!
//! A frame is one UTF-8 text message. Its first character is the kind code, a
//! decimal digit that selects the command; the frame as a whole, cut at each
//! `" { "`, gives the arguments:
//!
//! ```text
//! CMD { ARGUMENT { ARGUMENT { ARGUMENT ...
//! ```

use crate::encoding::lemma_first_byte;
use crate::token::{split_args, texts, tokens};
use num_traits::FromPrimitive;
use vstd::prelude::*;

verus! {

/// The kind of command being issued.
#[derive(Clone, Copy, Debug, PartialEq, Eq, Structural)]
pub enum CmdKind {
    /// Sends a message to the chat room. Its code is 0.
    MSG,
    /// Mutes the targeted user on the local device. Its code is 1.
    MUTE,
    /// Sends a whisper to the targeted user. Its code is 2.
    DM,
}

/// The kind that a code stands for, if it stands for one.
pub open spec fn kind_of_code(code: int) -> Option<CmdKind> {
    if code == 0 {
        Some(CmdKind::MSG)
    } else if code == 1 {
        Some(CmdKind::MUTE)
    } else if code == 2 {
        Some(CmdKind::DM)
    } else {
        None
    }
}

impl FromPrimitive for CmdKind {
    /// The kind with code `n`, if there is one.
    fn from_i64(n: i64) -> (kind: Option<Self>)
        ensures
            kind == kind_of_code(n as int),
    {
        match n {
            0 => Some(CmdKind::MSG),
            1 => Some(CmdKind::MUTE),
            2 => Some(CmdKind::DM),
            _ => None,
        }
    }

    /// The kind with code `n`, if there is one.
    fn from_u64(n: u64) -> (kind: Option<Self>)
        ensures
            kind == kind_of_code(n as int),
    {
        match n {
            0 => Some(CmdKind::MSG),
            1 => Some(CmdKind::MUTE),
            2 => Some(CmdKind::DM),
            _ => None,
        }
    }
}

/// Calls `num_traits::FromPrimitive::from_u8`, a method that the trait
/// provides: it widens `code` to a `u64` and returns what `from_u64` returns
/// for it. For `CmdKind` that is the function above, which is proved to
/// return `kind_of_code`. That `from_u8` hands the code over in this way is
/// what the contract takes on trust.
#[verifier::external_body]
fn kind_from_u8(code: u8) -> (kind: Option<CmdKind>)
    ensures
        kind == kind_of_code(code as int),
{
    <CmdKind as FromPrimitive>::from_u8(code)
}

/// Why the first character of a frame could not be read as a digit.
#[derive(Clone, Copy, Debug, PartialEq, Eq, Structural)]
pub enum DigitError {
    /// The frame is empty: it has no first character.
    Empty,
    /// The first character is not one of `0` to `9`.
    InvalidDigit,
}

/// Occurs when a frame coming from a client is malformed.
#[derive(Clone, Copy, Debug, PartialEq, Eq)]
pub enum ParseCmdError {
    /// The frame does not begin with the code of a command. Where the first
    /// character is no digit at all, the reason is given; without a reason,
    /// the digit was read and no command has it as its code.
    InvalidKind(Option<DigitError>),
}

/// A command issued by a client.
#[derive(Debug, PartialEq, Eq)]
pub struct Cmd<'a> {
    /// The type of the command
    pub kind: CmdKind,
    /// The tokens of the frame, the first of which begins with the kind code
    pub args: Vec<&'a str>,
}

/// What a command holds: its kind, and the text of each argument.
pub struct CmdView {
    pub kind: CmdKind,
    pub args: Seq<Seq<char>>,
}

impl<'a> View for Cmd<'a> {
    type V = CmdView;

    open spec fn view(&self) -> CmdView {
        CmdView { kind: self.kind, args: texts(self.args@) }
    }
}

/// The byte that encodes the digit `0`.
const ASCII_ZERO: u8 = 0x30;

/// The byte that encodes the digit `9`.
const ASCII_NINE: u8 = 0x39;

/// True for the ten decimal digits.
pub open spec fn is_digit(c: char) -> bool {
    '0' <= c <= '9'
}

/// The number that a decimal digit stands for.
pub open spec fn digit_value(c: char) -> int {
    c as int - '0' as int
}

/// Reads the kind code of a frame: its first character, as one decimal digit.
pub fn parse_code(s: &str) -> (res: Result<u8, DigitError>)
    ensures
        s@.len() == 0 ==> res == Err::<u8, DigitError>(DigitError::Empty),
        s@.len() > 0 && !is_digit(s@[0]) ==> res == Err::<u8, DigitError>(
            DigitError::InvalidDigit,
        ),
        s@.len() > 0 && is_digit(s@[0]) ==> res == Ok::<u8, DigitError>(digit_value(s@[0]) as u8),
{
    let bytes = s.as_bytes();
    if bytes.len() == 0 {
        return Err(DigitError::Empty);
    }
    proof {
        lemma_first_byte(s@);
    }
    let first = bytes[0];
    if ASCII_ZERO <= first && first <= ASCII_NINE {
        Ok(first - ASCII_ZERO)
    } else {
        Err(DigitError::InvalidDigit)
    }
}

/// Reads the kind of command that a frame asks for.
pub fn parse_kind(s: &str) -> (res: Result<CmdKind, ParseCmdError>)
    ensures
        s@.len() == 0 ==> res == Err::<CmdKind, ParseCmdError>(
            ParseCmdError::InvalidKind(Some(DigitError::Empty)),
        ),
        s@.len() > 0 && !is_digit(s@[0]) ==> res == Err::<CmdKind, ParseCmdError>(
            ParseCmdError::InvalidKind(Some(DigitError::InvalidDigit)),
        ),
        s@.len() > 0 && '3' <= s@[0] <= '9' ==> res == Err::<CmdKind, ParseCmdError>(
            ParseCmdError::InvalidKind(None),
        ),
        s@.len() > 0 && '0' <= s@[0] <= '2' ==> (res matches Ok(kind) && Some(kind)
            == kind_of_code(digit_value(s@[0]))),
{
    match parse_code(s) {
        Err(cause) => Err(ParseCmdError::InvalidKind(Some(cause))),
        Ok(code) => match kind_from_u8(code) {
            Some(kind) => Ok(kind),
            None => Err(ParseCmdError::InvalidKind(None)),
        },
    }
}

impl<'a> TryFrom<&'a str> for Cmd<'a> {
    type Error = ParseCmdError;

    /// Reads a frame as a command. The arguments borrow from the frame.
    fn try_from(s: &'a str) -> (res: Result<Self, ParseCmdError>)
        ensures
            s@.len() == 0 ==> res == Err::<Self, ParseCmdError>(
                ParseCmdError::InvalidKind(Some(DigitError::Empty)),
            ),
            s@.len() > 0 && !is_digit(s@[0]) ==> res == Err::<Self, ParseCmdError>(
                ParseCmdError::InvalidKind(Some(DigitError::InvalidDigit)),
            ),
            s@.len() > 0 && '3' <= s@[0] <= '9' ==> res == Err::<Self, ParseCmdError>(
                ParseCmdError::InvalidKind(None),
            ),
            s@.len() > 0 && '0' <= s@[0] <= '2' ==> (res matches Ok(cmd) && Some(cmd.kind)
                == kind_of_code(digit_value(s@[0])) && cmd@.args == tokens(s@)),
    {
        match parse_kind(s) {
            Err(e) => Err(e),
            Ok(kind) => Ok(Cmd { kind, args: split_args(s) }),
        }
    }
}

/// Nothing is promised through `try_from_spec`: a command holds a vector, and
/// a contract knows a vector by its view only. What `try_from` returns is
/// stated in its own `ensures`, over the view of the command.
impl<'a> vstd::std_specs::convert::TryFromSpecImpl<&'a str> for Cmd<'a> {
    open spec fn obeys_try_from_spec() -> bool {
        false
    }

    open spec fn try_from_spec(v: &'a str) -> Result<Self, ParseCmdError> {
        arbitrary()
    }
}

/// The result of reading a frame, with the command seen by its view.
pub open spec fn outcome(res: Result<Cmd, ParseCmdError>) -> Result<CmdView, ParseCmdError> {
    match res {
        Ok(cmd) => Ok(cmd@),
        Err(e) => Err(e),
    }
}

/// Reading is a function of the frame's text. Whatever `Cmd::try_from` may
/// return for two frames with the same text, the two results are equal:
/// both are the same error, or both are commands of the same kind with the
/// same arguments in the same order.
pub proof fn lemma_reading_is_repeatable<'a, 'b>(
    frame: &'a str,
    again: &'b str,
    first: Result<Cmd<'a>, ParseCmdError>,
    second: Result<Cmd<'b>, ParseCmdError>,
)
    requires
        frame@ == again@,
        call_ensures(<Cmd<'a> as TryFrom<&'a str>>::try_from, (frame,), first),
        call_ensures(<Cmd<'b> as TryFrom<&'b str>>::try_from, (again,), second),
    ensures
        outcome(first) == outcome(second),
{
}

} // verus!
