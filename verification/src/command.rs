//! The ASCII command protocol.
//!
//! Commands arrive over IPC as space-separated ASCII tokens with no
//! newline: `toggle`, `undo`, `clear`, `clear_and_deactivate`,
//! `stroke_width <decimal>`, `stroke_color <css-color>`, `exit`.
//! Unknown or malformed commands are reported to the caller, which logs
//! and drops them; they never abort the process. Stroke widths travel
//! as plain decimals with up to three fraction digits and are kept in
//! thousandths of a unit.

use vstd::prelude::*;

use crate::color::Rgba;
use crate::color::css_rgba_of;
use crate::color::parse_css_color;
use crate::color::spec_css_hex;

verus! {

/// A command of the control protocol.
#[derive(Clone, Copy, PartialEq, Eq, Structural, Debug)]
pub enum Command {
    /// Toggle whether the overlay accepts input.
    Toggle,
    /// Undo the in-progress stroke, or else the newest completed one.
    Undo,
    /// Discard the whole drawing.
    Clear,
    /// Discard the whole drawing and stop accepting input.
    ClearAndDeactivate,
    /// Set the stroke width, in thousandths of a drawing-space unit.
    StrokeWidth { width: u32 },
    /// Set the stroke color.
    StrokeColor { color: Rgba },
    /// Shut the tool down.
    Exit,
}

/// Why a command failed to parse.
#[derive(Clone, Copy, PartialEq, Eq, Structural, Debug)]
pub enum CommandError {
    /// The message was empty.
    EmptyMessage,
    /// The first token is no known command name.
    UnknownMessage,
    /// A `stroke_width` command without a parseable width.
    BadWidth,
    /// A `stroke_color` command without a parseable color.
    BadColor,
}

/// The log line for each parse error.
pub open spec fn spec_message(e: CommandError) -> Seq<char> {
    match e {
        CommandError::EmptyMessage => "received empty message"@,
        CommandError::UnknownMessage => "unknown message"@,
        CommandError::BadWidth => "received stroke width message but couldn't parse a width"@,
        CommandError::BadColor => "received stroke color message but couldn't parse a color"@,
    }
}

impl CommandError {
    /// The log line for this error.
    pub fn message(&self) -> (r: &'static str)
        ensures
            r@ == spec_message(*self),
    {
        match self {
            CommandError::EmptyMessage => "received empty message",
            CommandError::UnknownMessage => "unknown message",
            CommandError::BadWidth => "received stroke width message but couldn't parse a width",
            CommandError::BadColor => "received stroke color message but couldn't parse a color",
        }
    }
}

/// `toggle` in ASCII bytes.
pub open spec fn kw_toggle() -> Seq<u8> {
    seq![116u8, 111u8, 103u8, 103u8, 108u8, 101u8]
}

/// `undo` in ASCII bytes.
pub open spec fn kw_undo() -> Seq<u8> {
    seq![117u8, 110u8, 100u8, 111u8]
}

/// `clear` in ASCII bytes.
pub open spec fn kw_clear() -> Seq<u8> {
    seq![99u8, 108u8, 101u8, 97u8, 114u8]
}

/// `clear_and_deactivate` in ASCII bytes.
pub open spec fn kw_clear_and_deactivate() -> Seq<u8> {
    seq![
        99u8, 108u8, 101u8, 97u8, 114u8, 95u8, 97u8, 110u8, 100u8, 95u8, 100u8,
        101u8, 97u8, 99u8, 116u8, 105u8, 118u8, 97u8, 116u8, 101u8,
    ]
}

/// `stroke_width` in ASCII bytes.
pub open spec fn kw_stroke_width() -> Seq<u8> {
    seq![115u8, 116u8, 114u8, 111u8, 107u8, 101u8, 95u8, 119u8, 105u8, 100u8, 116u8, 104u8]
}

/// `stroke_color` in ASCII bytes.
pub open spec fn kw_stroke_color() -> Seq<u8> {
    seq![115u8, 116u8, 114u8, 111u8, 107u8, 101u8, 95u8, 99u8, 111u8, 108u8, 111u8, 114u8]
}

/// `exit` in ASCII bytes.
pub open spec fn kw_exit() -> Seq<u8> {
    seq![101u8, 120u8, 105u8, 116u8]
}

/// The ASCII space that separates tokens.
pub open spec fn space() -> u8 {
    32u8
}

/// The ASCII dot that separates a width's integer and fraction digits.
pub open spec fn dot() -> u8 {
    46u8
}

/// Index of the first occurrence of `b` in `s`, if any.
pub open spec fn find_byte(s: Seq<u8>, b: u8) -> Option<int>
    decreases s.len(),
{
    if s.len() == 0 {
        None
    } else if s[0] == b {
        Some(0)
    } else {
        match find_byte(s.drop_first(), b) {
            Some(i) => Some(i + 1),
            None => None,
        }
    }
}

/// Where the first occurrence lands, that is `b`, nothing before it is,
/// and a missing occurrence means `b` is nowhere in `s`.
pub proof fn lemma_find_byte_sound(s: Seq<u8>, b: u8)
    ensures
        match find_byte(s, b) {
            Some(i) => 0 <= i < s.len() && s[i] == b && (forall|k: int|
                0 <= k < i ==> s[k] != b),
            None => forall|k: int| 0 <= k < s.len() ==> s[k] != b,
        },
    decreases s.len(),
{
    if s.len() > 0 && s[0] != b {
        let rest = s.drop_first();
        lemma_find_byte_sound(rest, b);
        match find_byte(rest, b) {
            Some(ri) => {
                assert(s[ri + 1] == rest[ri]);
                assert forall|k: int| 0 <= k < ri + 1 implies s[k] != b by {
                    if k > 0 {
                        assert(rest[k - 1] == s[k]);
                    }
                }
            },
            None => {
                assert forall|k: int| 0 <= k < s.len() implies s[k] != b by {
                    if k > 0 {
                        assert(rest[k - 1] == s[k]);
                    }
                }
            },
        }
    }
}

/// A scan that saw no occurrence before `i` and one at `i` has found
/// the first occurrence.
proof fn lemma_find_byte_at(s: Seq<u8>, b: u8, i: int)
    requires
        0 <= i < s.len(),
        s[i] == b,
        forall|k: int| 0 <= k < i ==> s[k] != b,
    ensures
        find_byte(s, b) == Some(i),
{
    lemma_find_byte_sound(s, b);
    match find_byte(s, b) {
        Some(j) => {
            if j < i {
                assert(s[j] != b);
            }
            if j > i {
                assert(s[i] != b);
            }
        },
        None => {
            assert(s[i] != b);
        },
    }
}

/// A scan that saw no occurrence at all proves there is none.
proof fn lemma_find_byte_none(s: Seq<u8>, b: u8)
    requires
        forall|k: int| 0 <= k < s.len() ==> s[k] != b,
    ensures
        find_byte(s, b) is None,
{
    lemma_find_byte_sound(s, b);
    match find_byte(s, b) {
        Some(j) => {
            assert(s[j] != b);
        },
        None => {},
    }
}

/// Index of the first occurrence of `b`, scanning from the front.
fn find_byte_in(s: &[u8], b: u8) -> (r: Option<usize>)
    ensures
        r matches Some(i) ==> i < s@.len() && find_byte(s@, b) == Some(i as int),
        r is None ==> find_byte(s@, b) is None,
{
    let n = s.len();
    let mut i: usize = 0;
    while i < n
        invariant
            n == s@.len(),
            0 <= i <= n,
            forall|k: int| 0 <= k < i ==> s@[k] != b,
        decreases n - i,
    {
        if s[i] == b {
            proof {
                lemma_find_byte_at(s@, b, i as int);
            }
            return Some(i);
        }
        i = i + 1;
    }
    proof {
        lemma_find_byte_none(s@, b);
    }
    None
}

/// The first token of a message: everything before the first space, or
/// the whole message when it has none.
pub open spec fn first_token(s: Seq<u8>) -> Seq<u8> {
    match find_byte(s, space()) {
        None => s,
        Some(i) => s.take(i),
    }
}

/// What follows the first space of a message, if it has one.
pub open spec fn after_first_space(s: Seq<u8>) -> Option<Seq<u8>> {
    match find_byte(s, space()) {
        None => None,
        Some(i) => Some(s.skip(i + 1)),
    }
}

/// An ASCII decimal digit.
pub open spec fn is_digit(b: u8) -> bool {
    48 <= b <= 57
}

/// Every byte of `s` is a decimal digit.
pub open spec fn all_digits(s: Seq<u8>) -> bool {
    forall|i: int| 0 <= i < s.len() ==> is_digit(#[trigger] s[i])
}

/// The value of a digit string, most significant digit first.
pub open spec fn digits_value(s: Seq<u8>) -> int
    decreases s.len(),
{
    if s.len() == 0 {
        0
    } else {
        digits_value(s.drop_last()) * 10 + (s.last() - 48)
    }
}

/// The decimal digits of `n`, most significant first, no leading
/// zeros (`0` itself is the single digit `0`).
pub open spec fn dec_digits(n: int) -> Seq<u8>
    decreases n,
{
    if n < 10 {
        seq![(48 + n) as u8]
    } else {
        dec_digits(n / 10).push((48 + n % 10) as u8)
    }
}

/// The value of a fraction-digit string, read as thousandths: one digit
/// counts hundreds, two count tens, three count ones.
pub open spec fn frac_value(fp: Seq<u8>) -> int {
    if fp.len() == 0 {
        0
    } else if fp.len() == 1 {
        digits_value(fp) * 100
    } else if fp.len() == 2 {
        digits_value(fp) * 10
    } else {
        digits_value(fp)
    }
}

/// A width token parsed into thousandths of a unit: up to seven
/// integer digits, optionally followed by a dot and up to three
/// fraction digits, with at least one digit in all and a value that
/// fits the width's range. Anything else is rejected.
pub open spec fn spec_parse_width(t: Seq<u8>) -> Option<u32> {
    let ip = match find_byte(t, dot()) {
        None => t,
        Some(i) => t.take(i),
    };
    let fp = match find_byte(t, dot()) {
        None => Seq::<u8>::empty(),
        Some(i) => t.skip(i + 1),
    };
    if ip.len() <= 7 && all_digits(ip) && fp.len() <= 3 && all_digits(fp) && ip.len() + fp.len()
        >= 1 {
        if digits_value(ip) * 1000 + frac_value(fp) <= u32::MAX {
            Some((digits_value(ip) * 1000 + frac_value(fp)) as u32)
        } else {
            None
        }
    } else {
        None
    }
}

/// A width in thousandths formatted as a decimal token: the integer
/// part, then a dot and the fraction digits with trailing zeros
/// dropped; an exact integer has no dot.
pub open spec fn spec_format_width(w: u32) -> Seq<u8> {
    let f = w as int % 1000;
    if f == 0 {
        dec_digits(w as int / 1000)
    } else if f % 10 != 0 {
        dec_digits(w as int / 1000) + seq![dot(), (48 + f / 100) as u8, (48 + (f / 10) % 10) as u8, (
        48 + f % 10) as u8]
    } else if f % 100 != 0 {
        dec_digits(w as int / 1000) + seq![dot(), (48 + f / 100) as u8, (48 + (f / 10) % 10) as u8]
    } else {
        dec_digits(w as int / 1000) + seq![dot(), (48 + f / 100) as u8]
    }
}

/// A command serialized to protocol bytes.
pub open spec fn spec_serialize(c: Command) -> Seq<u8> {
    match c {
        Command::Toggle => kw_toggle(),
        Command::Undo => kw_undo(),
        Command::Clear => kw_clear(),
        Command::ClearAndDeactivate => kw_clear_and_deactivate(),
        Command::StrokeWidth { width } => kw_stroke_width() + seq![space()] + spec_format_width(
            width,
        ),
        Command::StrokeColor { color } => kw_stroke_color() + seq![space()] + spec_css_hex(color),
        Command::Exit => kw_exit(),
    }
}

/// Protocol bytes parsed into a command, or the error the caller logs:
/// the first token selects the command; a width or color command reads
/// its payload from the second token; everything after the payload
/// token is ignored, as is everything after a plain command's name.
pub open spec fn spec_deserialize(s: Seq<u8>) -> Result<Command, CommandError> {
    if s.len() == 0 {
        Err(CommandError::EmptyMessage)
    } else {
        let tok = first_token(s);
        if tok == kw_toggle() {
            Ok(Command::Toggle)
        } else if tok == kw_undo() {
            Ok(Command::Undo)
        } else if tok == kw_clear() {
            Ok(Command::Clear)
        } else if tok == kw_clear_and_deactivate() {
            Ok(Command::ClearAndDeactivate)
        } else if tok == kw_stroke_width() {
            match after_first_space(s) {
                None => Err(CommandError::BadWidth),
                Some(rest) => match spec_parse_width(first_token(rest)) {
                    Some(width) => Ok(Command::StrokeWidth { width }),
                    None => Err(CommandError::BadWidth),
                },
            }
        } else if tok == kw_stroke_color() {
            match after_first_space(s) {
                None => Err(CommandError::BadColor),
                Some(rest) => match css_rgba_of(first_token(rest)) {
                    Some(color) => Ok(Command::StrokeColor { color }),
                    None => Err(CommandError::BadColor),
                },
            }
        } else if tok == kw_exit() {
            Ok(Command::Exit)
        } else {
            Err(CommandError::UnknownMessage)
        }
    }
}

/// Ten to the `n`-th.
pub open spec fn pow10(n: nat) -> int
    decreases n,
{
    if n == 0 {
        1
    } else {
        10 * pow10((n - 1) as nat)
    }
}

proof fn lemma_pow10_pos(n: nat)
    ensures
        pow10(n) >= 1,
    decreases n,
{
    if n > 0 {
        lemma_pow10_pos((n - 1) as nat);
    }
}

proof fn lemma_pow10_mono(a: nat, b: nat)
    requires
        a <= b,
    ensures
        pow10(a) <= pow10(b),
    decreases b,
{
    if a < b {
        lemma_pow10_mono(a, (b - 1) as nat);
        lemma_pow10_pos((b - 1) as nat);
    }
}

/// A digit string's value is below ten to its length.
proof fn lemma_digits_value_bound(s: Seq<u8>)
    requires
        all_digits(s),
    ensures
        0 <= digits_value(s) < pow10(s.len()),
    decreases s.len(),
{
    if s.len() > 0 {
        let head = s.drop_last();
        assert forall|i: int| 0 <= i < head.len() implies is_digit(#[trigger] head[i]) by {
            assert(head[i] == s[i]);
        }
        lemma_digits_value_bound(head);
        assert(is_digit(s[s.len() - 1]));
    }
}

/// The value of a digit slice, most significant digit first.
fn digits_to_value(s: &[u8]) -> (r: u32)
    requires
        all_digits(s@),
        s@.len() <= 7,
    ensures
        r == digits_value(s@),
        r <= 9999999,
{
    let n = s.len();
    let mut v: u32 = 0;
    let mut i: usize = 0;
    while i < n
        invariant
            n == s@.len() <= 7,
            0 <= i <= n,
            all_digits(s@),
            v == digits_value(s@.take(i as int)),
            0 <= v < pow10(i as nat),
        decreases n - i,
    {
        proof {
            assert(s@.take(i as int + 1).drop_last() =~= s@.take(i as int));
            assert(s@.take(i as int + 1).last() == s@[i as int]);
            assert(is_digit(s@[i as int]));
            lemma_pow10_mono(i as nat, 6);
            reveal_with_fuel(pow10, 8);
            assert(pow10(6) == 1000000);
        }
        v = v * 10 + (s[i] - 48) as u32;
        i = i + 1;
    }
    proof {
        assert(s@.take(n as int) =~= s@);
        lemma_pow10_mono(n as nat, 7);
        reveal_with_fuel(pow10, 8);
        assert(pow10(7) == 10000000);
    }
    v
}

/// Whether every byte of the slice is a decimal digit.
fn check_digits(s: &[u8]) -> (r: bool)
    ensures
        r == all_digits(s@),
{
    let n = s.len();
    let mut i: usize = 0;
    while i < n
        invariant
            n == s@.len(),
            0 <= i <= n,
            forall|k: int| 0 <= k < i ==> is_digit(#[trigger] s@[k]),
        decreases n - i,
    {
        let b = s[i];
        if b < 48 || b > 57 {
            return false;
        }
        i = i + 1;
    }
    true
}

/// Parse one width token into thousandths of a unit.
fn parse_width_token(t: &[u8]) -> (r: Option<u32>)
    ensures
        r == spec_parse_width(t@),
{
    let (ip, fp): (&[u8], &[u8]) = match find_byte_in(t, 46) {
        None => {
            let empty: &[u8] = t.split_at(t.len()).1;
            proof {
                assert(empty@ =~= Seq::<u8>::empty());
                assert(t@.skip(t@.len() as int) =~= Seq::<u8>::empty());
            }
            (t, empty)
        },
        Some(i) => {
            let (a, b) = t.split_at(i);
            let f = b.split_at(1).1;
            proof {
                assert(a@ =~= t@.take(i as int));
                assert(f@ =~= t@.skip(i as int + 1));
            }
            (a, f)
        },
    };
    if ip.len() > 7 || fp.len() > 3 || ip.len() + fp.len() < 1 {
        return None;
    }
    if !check_digits(ip) || !check_digits(fp) {
        return None;
    }
    let int_part = digits_to_value(ip);
    let frac_digits_value = digits_to_value(fp);
    let frac = if fp.len() == 0 {
        0
    } else if fp.len() == 1 {
        frac_digits_value * 100
    } else if fp.len() == 2 {
        frac_digits_value * 10
    } else {
        frac_digits_value
    };
    let total: u64 = int_part as u64 * 1000 + frac as u64;
    if total > u32::MAX as u64 {
        return None;
    }
    Some(total as u32)
}

/// Append the decimal digits of `n`.
fn push_dec(v: &mut Vec<u8>, n: u32)
    ensures
        final(v)@ == old(v)@ + dec_digits(n as int),
    decreases n,
{
    if n < 10 {
        v.push(48 + n as u8);
        proof {
            assert(final(v)@ =~= old(v)@ + dec_digits(n as int));
        }
    } else {
        push_dec(v, n / 10);
        v.push(48 + (n % 10) as u8);
        proof {
            assert(final(v)@ =~= old(v)@ + dec_digits(n as int));
        }
    }
}

fn is_kw_toggle(t: &[u8]) -> (r: bool)
    ensures
        r == (t@ == kw_toggle()),
{
    let r = t.len() == 6 && t[0] == 116 && t[1] == 111 && t[2] == 103 && t[3] == 103 && t[4] == 108
        && t[5] == 101;
    proof {
        if r {
            assert(t@ =~= kw_toggle());
        }
    }
    r
}

fn is_kw_undo(t: &[u8]) -> (r: bool)
    ensures
        r == (t@ == kw_undo()),
{
    let r = t.len() == 4 && t[0] == 117 && t[1] == 110 && t[2] == 100 && t[3] == 111;
    proof {
        if r {
            assert(t@ =~= kw_undo());
        }
    }
    r
}

fn is_kw_clear(t: &[u8]) -> (r: bool)
    ensures
        r == (t@ == kw_clear()),
{
    let r = t.len() == 5 && t[0] == 99 && t[1] == 108 && t[2] == 101 && t[3] == 97 && t[4] == 114;
    proof {
        if r {
            assert(t@ =~= kw_clear());
        }
    }
    r
}

fn is_kw_clear_and_deactivate(t: &[u8]) -> (r: bool)
    ensures
        r == (t@ == kw_clear_and_deactivate()),
{
    let r = t.len() == 20 && t[0] == 99 && t[1] == 108 && t[2] == 101 && t[3] == 97 && t[4] == 114
        && t[5] == 95 && t[6] == 97 && t[7] == 110 && t[8] == 100 && t[9] == 95 && t[10] == 100
        && t[11] == 101 && t[12] == 97 && t[13] == 99 && t[14] == 116 && t[15] == 105 && t[16]
        == 118 && t[17] == 97 && t[18] == 116 && t[19] == 101;
    proof {
        if r {
            assert(t@ =~= kw_clear_and_deactivate());
        }
    }
    r
}

fn is_kw_stroke_width(t: &[u8]) -> (r: bool)
    ensures
        r == (t@ == kw_stroke_width()),
{
    let r = t.len() == 12 && t[0] == 115 && t[1] == 116 && t[2] == 114 && t[3] == 111 && t[4]
        == 107 && t[5] == 101 && t[6] == 95 && t[7] == 119 && t[8] == 105 && t[9] == 100 && t[10]
        == 116 && t[11] == 104;
    proof {
        if r {
            assert(t@ =~= kw_stroke_width());
        }
    }
    r
}

fn is_kw_stroke_color(t: &[u8]) -> (r: bool)
    ensures
        r == (t@ == kw_stroke_color()),
{
    let r = t.len() == 12 && t[0] == 115 && t[1] == 116 && t[2] == 114 && t[3] == 111 && t[4]
        == 107 && t[5] == 101 && t[6] == 95 && t[7] == 99 && t[8] == 111 && t[9] == 108 && t[10]
        == 111 && t[11] == 114;
    proof {
        if r {
            assert(t@ =~= kw_stroke_color());
        }
    }
    r
}

fn is_kw_exit(t: &[u8]) -> (r: bool)
    ensures
        r == (t@ == kw_exit()),
{
    let r = t.len() == 4 && t[0] == 101 && t[1] == 120 && t[2] == 105 && t[3] == 116;
    proof {
        if r {
            assert(t@ =~= kw_exit());
        }
    }
    r
}

fn push_bytes(v: &mut Vec<u8>, b0: u8, b1: u8, b2: u8, b3: u8)
    ensures
        final(v)@ == old(v)@ + seq![b0, b1, b2, b3],
{
    v.push(b0);
    v.push(b1);
    v.push(b2);
    v.push(b3);
    proof {
        assert(final(v)@ =~= old(v)@ + seq![b0, b1, b2, b3]);
    }
}

impl Command {
    /// This command's protocol bytes.
    pub fn serialize(&self) -> (r: Vec<u8>)
        ensures
            r@ == spec_serialize(*self),
    {
        let mut v: Vec<u8> = Vec::new();
        match self {
            Command::Toggle => {
                push_bytes(&mut v, 116, 111, 103, 103);
                v.push(108);
                v.push(101);
                proof {
                    assert(v@ =~= spec_serialize(*self));
                }
            },
            Command::Undo => {
                push_bytes(&mut v, 117, 110, 100, 111);
                proof {
                    assert(v@ =~= spec_serialize(*self));
                }
            },
            Command::Clear => {
                push_bytes(&mut v, 99, 108, 101, 97);
                v.push(114);
                proof {
                    assert(v@ =~= spec_serialize(*self));
                }
            },
            Command::ClearAndDeactivate => {
                push_bytes(&mut v, 99, 108, 101, 97);
                push_bytes(&mut v, 114, 95, 97, 110);
                push_bytes(&mut v, 100, 95, 100, 101);
                push_bytes(&mut v, 97, 99, 116, 105);
                push_bytes(&mut v, 118, 97, 116, 101);
                proof {
                    assert(v@ =~= spec_serialize(*self));
                }
            },
            Command::StrokeWidth { width } => {
                push_bytes(&mut v, 115, 116, 114, 111);
                push_bytes(&mut v, 107, 101, 95, 119);
                push_bytes(&mut v, 105, 100, 116, 104);
                v.push(32);
                let w = *width;
                push_dec(&mut v, w / 1000);
                let f = w % 1000;
                if f != 0 {
                    v.push(46);
                    v.push(48 + (f / 100) as u8);
                    if f % 100 != 0 {
                        v.push(48 + ((f / 10) % 10) as u8);
                    }
                    if f % 10 != 0 {
                        v.push(48 + (f % 10) as u8);
                    }
                }
                proof {
                    assert(v@ =~= spec_serialize(*self));
                }
            },
            Command::StrokeColor { color } => {
                push_bytes(&mut v, 115, 116, 114, 111);
                push_bytes(&mut v, 107, 101, 95, 99);
                push_bytes(&mut v, 111, 108, 111, 114);
                v.push(32);
                let mut hex = color.to_css_hex();
                v.append(&mut hex);
                proof {
                    assert(v@ =~= spec_serialize(*self));
                }
            },
            Command::Exit => {
                push_bytes(&mut v, 101, 120, 105, 116);
                proof {
                    assert(v@ =~= spec_serialize(*self));
                }
            },
        }
        v
    }

    /// Parse protocol bytes into a command, or say what was wrong with
    /// them.
    pub fn deserialize(s: &[u8]) -> (r: Result<Command, CommandError>)
        ensures
            r == spec_deserialize(s@),
    {
        if s.len() == 0 {
            return Err(CommandError::EmptyMessage);
        }
        let (tok, rest): (&[u8], Option<&[u8]>) = match find_byte_in(s, 32) {
            None => (s, None),
            Some(i) => {
                let (a, b) = s.split_at(i);
                let f = b.split_at(1).1;
                proof {
                    assert(a@ =~= first_token(s@));
                    assert(f@ =~= s@.skip(i as int + 1));
                }
                (a, Some(f))
            },
        };
        proof {
            assert(tok@ == first_token(s@));
            match rest {
                Some(f) => {
                    assert(after_first_space(s@) == Some(f@));
                },
                None => {
                    assert(after_first_space(s@) is None);
                },
            }
        }
        if is_kw_toggle(tok) {
            Ok(Command::Toggle)
        } else if is_kw_undo(tok) {
            Ok(Command::Undo)
        } else if is_kw_clear(tok) {
            Ok(Command::Clear)
        } else if is_kw_clear_and_deactivate(tok) {
            Ok(Command::ClearAndDeactivate)
        } else if is_kw_stroke_width(tok) {
            match rest {
                None => Err(CommandError::BadWidth),
                Some(payload) => {
                    let wtok: &[u8] = match find_byte_in(payload, 32) {
                        None => payload,
                        Some(j) => {
                            let a = payload.split_at(j).0;
                            proof {
                                assert(a@ =~= first_token(payload@));
                            }
                            a
                        },
                    };
                    match parse_width_token(wtok) {
                        Some(width) => Ok(Command::StrokeWidth { width }),
                        None => Err(CommandError::BadWidth),
                    }
                },
            }
        } else if is_kw_stroke_color(tok) {
            match rest {
                None => Err(CommandError::BadColor),
                Some(payload) => {
                    let ctok: &[u8] = match find_byte_in(payload, 32) {
                        None => payload,
                        Some(j) => {
                            let a = payload.split_at(j).0;
                            proof {
                                assert(a@ =~= first_token(payload@));
                            }
                            a
                        },
                    };
                    match parse_css_color(ctok) {
                        Some(color) => Ok(Command::StrokeColor { color }),
                        None => Err(CommandError::BadColor),
                    }
                },
            }
        } else if is_kw_exit(tok) {
            Ok(Command::Exit)
        } else {
            Err(CommandError::UnknownMessage)
        }
    }
}

proof fn lemma_dec_digits_nonempty(n: int)
    requires
        n >= 0,
    ensures
        dec_digits(n).len() >= 1,
    decreases n,
{
    if n >= 10 {
        lemma_dec_digits_nonempty(n / 10);
    }
}

proof fn lemma_dec_digits_all_digits(n: int)
    requires
        n >= 0,
    ensures
        all_digits(dec_digits(n)),
    decreases n,
{
    if n < 10 {
    } else {
        lemma_dec_digits_all_digits(n / 10);
        let s = dec_digits(n / 10);
        let t = dec_digits(n);
        assert forall|i: int| 0 <= i < t.len() implies is_digit(#[trigger] t[i]) by {
            if i < s.len() {
                assert(t[i] == s[i]);
            }
        }
    }
}

proof fn lemma_dec_digits_len_le(n: int, k: nat)
    requires
        0 <= n < pow10(k),
        k >= 1,
    ensures
        dec_digits(n).len() <= k,
    decreases n,
{
    if n < 10 {
    } else {
        let p = pow10((k - 1) as nat);
        lemma_pow10_pos((k - 1) as nat);
        assert(pow10(k) == 10 * p);
        assert(n / 10 < p) by (nonlinear_arith)
            requires
                0 <= n < 10 * p,
                p >= 1,
        ;
        lemma_dec_digits_len_le(n / 10, (k - 1) as nat);
    }
}

proof fn lemma_digits_value_of_dec(n: int)
    requires
        n >= 0,
    ensures
        digits_value(dec_digits(n)) == n,
    decreases n,
{
    reveal_with_fuel(digits_value, 3);
    if n < 10 {
        let s = dec_digits(n);
        assert(s == seq![(48 + n) as u8]);
        assert(s.drop_last() =~= Seq::<u8>::empty());
        assert(digits_value(s.drop_last()) == 0);
        assert(s.last() == (48 + n) as u8);
    } else {
        lemma_digits_value_of_dec(n / 10);
        lemma_dec_digits_nonempty(n / 10);
        let s = dec_digits(n / 10);
        let t = dec_digits(n);
        assert(t == s.push((48 + n % 10) as u8));
        assert(t.drop_last() =~= s);
        assert(t.last() == (48 + n % 10) as u8);
        assert(digits_value(t) == digits_value(s) * 10 + ((48 + n % 10) as u8 - 48));
    }
}

/// A digit sequence holds neither a space nor a dot.
proof fn lemma_digits_free_of(s: Seq<u8>, b: u8)
    requires
        all_digits(s),
        !is_digit(b),
    ensures
        find_byte(s, b) is None,
{
    assert forall|k: int| 0 <= k < s.len() implies s[k] != b by {
        assert(is_digit(s[k]));
    }
    lemma_find_byte_none(s, b);
}

/// The width format parses back to the width it came from: the integer
/// part of any representable width has at most seven digits, which the
/// parser accepts, and the value check passes by construction.
proof fn lemma_width_format_parses(w: u32)
    ensures
        spec_parse_width(spec_format_width(w)) == Some(w),
{
    reveal_with_fuel(digits_value, 5);
    let q = w as int / 1000;
    let f = w as int % 1000;
    let ip = dec_digits(q);
    lemma_dec_digits_nonempty(q);
    lemma_dec_digits_all_digits(q);
    reveal_with_fuel(pow10, 8);
    lemma_dec_digits_len_le(q, 7);
    lemma_digits_value_of_dec(q);
    let t = spec_format_width(w);
    if f == 0 {
        lemma_digits_free_of(ip, dot());
        assert(t == ip);
        assert(spec_parse_width(t) == Some((digits_value(ip) * 1000) as u32));
    } else {
        let d1 = (48 + f / 100) as u8;
        let d2 = (48 + (f / 10) % 10) as u8;
        let d3 = (48 + f % 10) as u8;
        let fp: Seq<u8> = if f % 10 != 0 {
            seq![d1, d2, d3]
        } else if f % 100 != 0 {
            seq![d1, d2]
        } else {
            seq![d1]
        };
        assert(t =~= ip + seq![dot()] + fp);
        let at = ip.len() as int;
        assert(t[at] == dot());
        assert forall|k: int| 0 <= k < at implies t[k] != dot() by {
            assert(t[k] == ip[k]);
            assert(is_digit(ip[k]));
        }
        lemma_find_byte_at(t, dot(), at);
        assert(t.take(at) =~= ip);
        assert(t.skip(at + 1) =~= fp);
        assert(all_digits(fp));
        if f % 10 != 0 {
            assert(fp.drop_last() =~= seq![d1, d2]);
            assert(seq![d1, d2].drop_last() =~= seq![d1]);
            assert(seq![d1].drop_last() =~= Seq::<u8>::empty());
            assert(digits_value(fp) == ((f / 100) * 10 + (f / 10) % 10) * 10 + f % 10);
            assert(f / 10 == (f / 100) * 10 + (f / 10) % 10);
            assert(f == (f / 10) * 10 + f % 10);
            assert(frac_value(fp) == f);
        } else if f % 100 != 0 {
            assert(fp.drop_last() =~= seq![d1]);
            assert(seq![d1].drop_last() =~= Seq::<u8>::empty());
            assert(digits_value(fp) == (f / 100) * 10 + (f / 10) % 10);
            assert(f / 10 == (f / 100) * 10 + (f / 10) % 10);
            assert(f == (f / 10) * 10);
            assert(frac_value(fp) == f);
        } else {
            assert(fp.drop_last() =~= Seq::<u8>::empty());
            assert(digits_value(fp) == f / 100);
            assert(f == (f / 100) * 100);
            assert(frac_value(fp) == f);
        }
        assert(spec_parse_width(t) == Some((digits_value(ip) * 1000 + f) as u32));
    }
}

/// Round trip of the protocol: a serialized command parses back to
/// itself, for every width. The one payload left out is the color: its
/// parse runs through the CSS color parser, whose relation to the hex
/// form the contracts do not pin down (the test suite exercises it
/// against the real parser).
pub proof fn lemma_serialize_round_trip(c: Command)
    requires
        !(c is StrokeColor),
    ensures
        spec_deserialize(spec_serialize(c)) == Ok::<Command, CommandError>(c),
{
    match c {
        Command::Toggle => {
            lemma_plain_keyword_round_trip(kw_toggle());
        },
        Command::Undo => {
            lemma_plain_keyword_round_trip(kw_undo());
        },
        Command::Clear => {
            lemma_plain_keyword_round_trip(kw_clear());
        },
        Command::ClearAndDeactivate => {
            lemma_plain_keyword_round_trip(kw_clear_and_deactivate());
        },
        Command::Exit => {
            lemma_plain_keyword_round_trip(kw_exit());
        },
        Command::StrokeWidth { width } => {
            let kw = kw_stroke_width();
            let fmt = spec_format_width(width);
            let s = spec_serialize(c);
            assert(s =~= kw + seq![space()] + fmt);
            assert(s[kw.len() as int] == space());
            assert forall|k: int| 0 <= k < kw.len() implies s[k] != space() by {
                assert(s[k] == kw[k]);
            }
            lemma_find_byte_at(s, space(), kw.len() as int);
            assert(first_token(s) =~= kw);
            assert(after_first_space(s) == Some(s.skip(kw.len() as int + 1)));
            assert(s.skip(kw.len() as int + 1) =~= fmt);
            lemma_format_width_has_no_space(width);
            assert(first_token(fmt) == fmt);
            lemma_width_format_parses(width);
        },
        Command::StrokeColor { color } => {},
    }
}

/// The width format consists of digits and at most one dot: no space.
proof fn lemma_format_width_has_no_space(w: u32)
    ensures
        find_byte(spec_format_width(w), space()) is None,
{
    let q = w as int / 1000;
    let f = w as int % 1000;
    lemma_dec_digits_all_digits(q);
    let t = spec_format_width(w);
    assert forall|k: int| 0 <= k < t.len() implies t[k] != space() by {
        let ip = dec_digits(q);
        if k < ip.len() {
            assert(t[k] == ip[k]);
            assert(is_digit(ip[k]));
        } else if f != 0 {
            if k == ip.len() {
                assert(t[k] == dot());
            } else {
                assert(48 <= t[k] <= 57);
            }
        }
    }
    lemma_find_byte_none(t, space());
}

/// A bare keyword message has no space, so its first token is the
/// whole keyword, and it parses to its own command.
proof fn lemma_plain_keyword_round_trip(kw: Seq<u8>)
    requires
        kw == kw_toggle() || kw == kw_undo() || kw == kw_clear() || kw
            == kw_clear_and_deactivate() || kw == kw_exit(),
    ensures
        find_byte(kw, space()) is None,
        first_token(kw) == kw,
        after_first_space(kw) is None,
{
    assert forall|k: int| 0 <= k < kw.len() implies kw[k] != space() by {
        assert(kw[k] != 32);
    }
    lemma_find_byte_none(kw, space());
}

} // verus!
