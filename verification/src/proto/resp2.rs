//! The RESP-style codec: framing, parsing and serialization.
//!
//! The codec works on byte buffers.  Incoming bytes are fed into a `Resp2`
//! value; `read_message` parses the next request from the buffered bytes and
//! `write_message` appends a reply's exact wire bytes to an output buffer.
//! All payloads are binary-safe byte strings; lines end in CR LF.

use vstd::arithmetic::div_mod::lemma_fundamental_div_mod;
use vstd::prelude::*;

use crate::bytes::{append_bytes, bytes_eq, clone_bytes, copy_range};

verus! {

/// Why the codec gave up on a request, or the normal end of a session.
#[derive(Clone, Copy, Debug, PartialEq, Eq)]
pub enum ProtocolError {
    /// A framing literal was not where it should be.
    ParsingFailed,
    /// The peer closed the session cleanly (an empty line, or no more input).
    ClientConnectionClosed,
    /// The buffered bytes end before the current frame does; feeding more
    /// bytes may let the same read succeed.
    Incomplete,
    /// A decimal integer field did not parse or does not fit.
    ParseInt,
    /// The token list matched no command of the grammar.
    Generic,
}

/// A request from a client.
#[derive(Clone, Debug, PartialEq, Eq)]
pub enum ClientMessage {
    Ping,
    Echo(Vec<u8>),
    Command(Vec<u8>),
    SetCmd(Vec<u8>, Vec<u8>, SetOptions),
    Get(Vec<u8>),
}

/// Options of a `SET` request: an optional expiry in milliseconds.
#[derive(Clone, Copy, Debug, Default, PartialEq, Eq)]
pub struct SetOptions {
    pub px: Option<u32>,
}

/// A reply to a client.
#[derive(Clone, Debug, PartialEq, Eq)]
pub enum ServerMessage {
    NullString,
    BulkString(Vec<u8>),
    SimpleString(Vec<u8>),
}

/// The mathematical model of a request: the same shape over byte sequences.
pub enum ClientMessageV {
    Ping,
    Echo(Seq<u8>),
    Command(Seq<u8>),
    SetCmd(Seq<u8>, Seq<u8>, SetOptions),
    Get(Seq<u8>),
}

/// The mathematical model of a reply.
pub enum ServerMessageV {
    NullString,
    BulkString(Seq<u8>),
    SimpleString(Seq<u8>),
}

impl View for ClientMessage {
    type V = ClientMessageV;

    open spec fn view(&self) -> ClientMessageV {
        match self {
            ClientMessage::Ping => ClientMessageV::Ping,
            ClientMessage::Echo(s) => ClientMessageV::Echo(s@),
            ClientMessage::Command(s) => ClientMessageV::Command(s@),
            ClientMessage::SetCmd(k, v, o) => ClientMessageV::SetCmd(k@, v@, *o),
            ClientMessage::Get(k) => ClientMessageV::Get(k@),
        }
    }
}

impl View for ServerMessage {
    type V = ServerMessageV;

    open spec fn view(&self) -> ServerMessageV {
        match self {
            ServerMessage::NullString => ServerMessageV::NullString,
            ServerMessage::BulkString(s) => ServerMessageV::BulkString(s@),
            ServerMessage::SimpleString(s) => ServerMessageV::SimpleString(s@),
        }
    }
}

/// The views of a list of byte vectors.
pub open spec fn views_of(v: Seq<Vec<u8>>) -> Seq<Seq<u8>> {
    v.map_values(|x: Vec<u8>| x@)
}

// ---------------------------------------------------------------------------
// Bytes and lines
// ---------------------------------------------------------------------------

/// ASCII whitespace: space, tab, line feed, form feed, carriage return.
pub open spec fn is_ws(c: u8) -> bool {
    c == 32 || c == 9 || c == 10 || c == 12 || c == 13
}

/// `s` with every trailing whitespace byte removed.
pub open spec fn trim_ws(s: Seq<u8>) -> Seq<u8>
    decreases s.len(),
{
    if s.len() > 0 && is_ws(s.last()) {
        trim_ws(s.drop_last())
    } else {
        s
    }
}

/// Index of the first line feed at or after `pos`, or `-1` when there is none.
pub open spec fn first_lf(s: Seq<u8>, pos: int) -> int
    decreases s.len() - pos,
{
    if pos < 0 || pos >= s.len() {
        -1
    } else if s[pos] == 10 {
        pos
    } else {
        first_lf(s, pos + 1)
    }
}

/// When `s[j]` is the first line feed at or after `pos`, `first_lf` finds it.
pub proof fn lemma_first_lf_at(s: Seq<u8>, pos: int, j: int)
    requires
        0 <= pos <= j < s.len(),
        s[j] == 10,
        forall|k: int| pos <= k < j ==> s[k] != 10,
    ensures
        first_lf(s, pos) == j,
    decreases j - pos,
{
    if pos < j {
        lemma_first_lf_at(s, pos + 1, j);
    }
}

/// Reading one line from `buf` at `pos`: the bytes up to the first line feed,
/// with trailing whitespace trimmed, and the position just past the line
/// feed.  With no data left or no complete line yet, more bytes are needed.
pub open spec fn spec_read_line(buf: Seq<u8>, pos: int) -> Result<(Seq<u8>, int), ProtocolError> {
    if pos >= buf.len() {
        Err(ProtocolError::Incomplete)
    } else {
        let j = first_lf(buf, pos);
        if j < 0 {
            Err(ProtocolError::Incomplete)
        } else {
            Ok((trim_ws(buf.subrange(pos, j)), j + 1))
        }
    }
}

// ---------------------------------------------------------------------------
// Decimal integers
// ---------------------------------------------------------------------------

/// An ASCII decimal digit.
pub open spec fn is_digit(c: u8) -> bool {
    48 <= c && c <= 57
}

/// Every byte of `s` is a decimal digit.
pub open spec fn all_digits(s: Seq<u8>) -> bool {
    forall|i: int| 0 <= i < s.len() ==> is_digit(#[trigger] s[i])
}

/// The value of a digit string, most significant digit first.
pub open spec fn dec_val(s: Seq<u8>) -> int
    decreases s.len(),
{
    if s.len() == 0 {
        0
    } else {
        dec_val(s.drop_last()) * 10 + (s.last() - 48)
    }
}

/// The value of a decimal token: an optional leading `+`, then at least one
/// digit.  Anything else has no value.
pub open spec fn parse_dec(s: Seq<u8>) -> Option<int> {
    let digits = if s.len() > 0 && s[0] == 43 {
        s.drop_first()
    } else {
        s
    };
    if digits.len() > 0 && all_digits(digits) {
        Some(dec_val(digits))
    } else {
        None
    }
}

/// `parse_dec`, further requiring the value to fit in `usize`.
pub open spec fn spec_parse_usize(s: Seq<u8>) -> Option<int> {
    match parse_dec(s) {
        Some(v) => if v <= usize::MAX {
            Some(v)
        } else {
            None
        },
        None => None,
    }
}

/// `parse_dec`, further requiring the value to fit in `u32`.
pub open spec fn spec_parse_u32(s: Seq<u8>) -> Option<u32> {
    match parse_dec(s) {
        Some(v) => if v <= u32::MAX {
            Some(v as u32)
        } else {
            None
        },
        None => None,
    }
}

/// The value of a digit string is never negative.
pub proof fn lemma_dec_val_nonneg(s: Seq<u8>)
    requires
        all_digits(s),
    ensures
        dec_val(s) >= 0,
    decreases s.len(),
{
    if s.len() > 0 {
        assert(forall|i: int| 0 <= i < s.drop_last().len() ==> s.drop_last()[i] == s[i]);
        lemma_dec_val_nonneg(s.drop_last());
    }
}

/// Extending a digit string never shrinks its value.
pub proof fn lemma_dec_val_prefix_le(s: Seq<u8>, i: int)
    requires
        all_digits(s),
        0 <= i <= s.len(),
    ensures
        dec_val(s.subrange(0, i)) <= dec_val(s),
    decreases s.len() - i,
{
    if i == s.len() {
        assert(s.subrange(0, i) =~= s);
    } else {
        lemma_dec_val_prefix_le(s, i + 1);
        let p = s.subrange(0, i + 1);
        assert(p.drop_last() =~= s.subrange(0, i));
        assert(forall|k: int| 0 <= k < p.len() ==> p[k] == s[k]);
        assert(dec_val(p) == dec_val(s.subrange(0, i)) * 10 + (s[i] - 48));
        assert(forall|k: int| 0 <= k < s.subrange(0, i).len() ==> s.subrange(0, i)[k] == s[k]);
        lemma_dec_val_nonneg(s.subrange(0, i));
    }
}

/// The decimal digits of `n`, most significant first (`0` for anything at or
/// below zero).
pub open spec fn dec_rep(n: int) -> Seq<u8>
    decreases n,
{
    if n <= 0 {
        seq![48u8]
    } else if n < 10 {
        seq![(48 + n) as u8]
    } else {
        dec_rep(n / 10).push((48 + n % 10) as u8)
    }
}

/// `dec_rep` writes only digits, and `dec_val` reads the value back.
pub proof fn lemma_dec_rep(n: int)
    requires
        n >= 0,
    ensures
        dec_rep(n).len() >= 1,
        all_digits(dec_rep(n)),
        dec_val(dec_rep(n)) == n,
    decreases n,
{
    if n < 10 {
        let s = dec_rep(n);
        assert(s.drop_last() =~= Seq::<u8>::empty());
        assert(dec_val(Seq::<u8>::empty()) == 0);
    } else {
        lemma_dec_rep(n / 10);
        lemma_fundamental_div_mod(n, 10);
        let d = dec_rep(n / 10);
        let s = d.push((48 + n % 10) as u8);
        assert(s.drop_last() =~= d);
        assert(forall|k: int| 0 <= k < d.len() ==> s[k] == d[k]);
        assert(dec_val(s) == dec_val(d) * 10 + (n % 10));
    }
}

// ---------------------------------------------------------------------------
// Frame-level parsing specifications
// ---------------------------------------------------------------------------

/// Reading exactly `n` raw bytes from `buf` at `pos`.
pub open spec fn spec_read_n(buf: Seq<u8>, pos: int, n: int) -> Result<
    (Seq<u8>, int),
    ProtocolError,
> {
    if pos + n > buf.len() {
        Err(ProtocolError::Incomplete)
    } else {
        Ok((buf.subrange(pos, pos + n), pos + n))
    }
}

/// Expecting the exact bytes `lit` at `pos`.
pub open spec fn spec_read_literal(buf: Seq<u8>, pos: int, lit: Seq<u8>) -> Result<
    int,
    ProtocolError,
> {
    if pos + lit.len() > buf.len() {
        Err(ProtocolError::Incomplete)
    } else if buf.subrange(pos, pos + lit.len()) == lit {
        Ok(pos + lit.len())
    } else {
        Err(ProtocolError::ParsingFailed)
    }
}

/// Reading one line and parsing it as a length that fits in `usize`.
pub open spec fn spec_read_length(buf: Seq<u8>, pos: int) -> Result<(int, int), ProtocolError> {
    match spec_read_line(buf, pos) {
        Err(e) => Err(e),
        Ok((line, p)) => match spec_parse_usize(line) {
            Some(n) => Ok((n, p)),
            None => Err(ProtocolError::ParseInt),
        },
    }
}

/// Reading one bulk-string element: a `$` literal, a decimal byte length, the
/// raw bytes, and the two terminator bytes after them (skipped unchecked).
pub open spec fn spec_read_bulk(buf: Seq<u8>, pos: int) -> Result<(Seq<u8>, int), ProtocolError> {
    match spec_read_literal(buf, pos, seq![36u8]) {
        Err(e) => Err(e),
        Ok(p1) => match spec_read_length(buf, p1) {
            Err(e) => Err(e),
            Ok((n, p2)) => match spec_read_n(buf, p2, n) {
                Err(e) => Err(e),
                Ok((data, p3)) => if p3 + 2 <= buf.len() {
                    Ok((data, p3 + 2))
                } else {
                    Err(ProtocolError::Incomplete)
                },
            },
        },
    }
}

/// Reading `n` bulk-string elements in a row.
pub open spec fn spec_read_elements(buf: Seq<u8>, pos: int, n: int) -> Result<
    (Seq<Seq<u8>>, int),
    ProtocolError,
>
    decreases n,
{
    if n <= 0 {
        Ok((Seq::empty(), pos))
    } else {
        match spec_read_bulk(buf, pos) {
            Err(e) => Err(e),
            Ok((d, p)) => match spec_read_elements(buf, p, n - 1) {
                Err(e) => Err(e),
                Ok((rest, p2)) => Ok((seq![d] + rest, p2)),
            },
        }
    }
}

// ---------------------------------------------------------------------------
// Tokens
// ---------------------------------------------------------------------------

/// End of the whitespace-free token starting at `i`: the first index at or
/// after `i` holding whitespace, or the end of `s`.
pub open spec fn token_end(s: Seq<u8>, i: int) -> int
    decreases s.len() - i,
{
    if i < 0 || i >= s.len() || is_ws(s[i]) {
        i
    } else {
        token_end(s, i + 1)
    }
}

/// `token_end` stays within `s` and past its starting point.
pub proof fn lemma_token_end(s: Seq<u8>, i: int)
    requires
        0 <= i <= s.len(),
    ensures
        i <= token_end(s, i) <= s.len(),
        0 <= i < s.len() && !is_ws(s[i]) ==> i + 1 <= token_end(s, i),
    decreases s.len() - i,
{
    if i < s.len() && !is_ws(s[i]) {
        lemma_token_end(s, i + 1);
    }
}

/// The whitespace-separated tokens of `s`, scanning from `i`.
pub open spec fn spec_split_ws_at(s: Seq<u8>, i: int) -> Seq<Seq<u8>>
    decreases s.len() - i,
    when 0 <= i
    via spec_split_ws_at_dec
{
    if i >= s.len() {
        Seq::empty()
    } else if is_ws(s[i]) {
        spec_split_ws_at(s, i + 1)
    } else {
        let j = token_end(s, i);
        seq![s.subrange(i, j)] + spec_split_ws_at(s, j)
    }
}

#[via_fn]
proof fn spec_split_ws_at_dec(s: Seq<u8>, i: int) {
    if 0 <= i < s.len() && !is_ws(s[i]) {
        lemma_token_end(s, i);
    }
}

/// The whitespace-separated tokens of `s`.
pub open spec fn spec_split_ws(s: Seq<u8>) -> Seq<Seq<u8>> {
    spec_split_ws_at(s, 0)
}

/// The tokens joined with single spaces.
pub open spec fn spec_join(toks: Seq<Seq<u8>>) -> Seq<u8>
    decreases toks.len(),
{
    if toks.len() == 0 {
        Seq::empty()
    } else if toks.len() == 1 {
        toks[0]
    } else {
        toks[0] + seq![32u8] + spec_join(toks.drop_first())
    }
}

// ---------------------------------------------------------------------------
// The command grammar
// ---------------------------------------------------------------------------

pub open spec fn ping_lit() -> Seq<u8> {
    seq![112u8, 105u8, 110u8, 103u8]
}

pub open spec fn echo_lit() -> Seq<u8> {
    seq![101u8, 99u8, 104u8, 111u8]
}

pub open spec fn command_lit() -> Seq<u8> {
    seq![99u8, 111u8, 109u8, 109u8, 97u8, 110u8, 100u8]
}

pub open spec fn set_lit() -> Seq<u8> {
    seq![115u8, 101u8, 116u8]
}

pub open spec fn get_lit() -> Seq<u8> {
    seq![103u8, 101u8, 116u8]
}

pub open spec fn px_lit() -> Seq<u8> {
    seq![112u8, 120u8]
}

/// Lower-casing of one ASCII byte.
pub open spec fn lower_byte(c: u8) -> u8 {
    if 65 <= c && c <= 90 {
        (c + 32) as u8
    } else {
        c
    }
}

/// ASCII lower-casing of a byte string.
pub open spec fn lower(s: Seq<u8>) -> Seq<u8> {
    s.map_values(|c: u8| lower_byte(c))
}

/// The grammar mapping a token list to a request.  The verb is matched
/// case-insensitively.  `echo` joins every following token with single
/// spaces; `command` and `get` take one argument; `set` takes a key and a
/// value, and reads a `px <millis>` option when at least five tokens are
/// present — an unknown option key is ignored, a bad `px` value is fatal.
/// An empty list, a missing argument or an unknown verb is fatal.
pub open spec fn spec_try_from(toks: Seq<Seq<u8>>) -> Result<ClientMessageV, ProtocolError> {
    if toks.len() == 0 {
        Err(ProtocolError::Generic)
    } else {
        let verb = lower(toks[0]);
        if verb == ping_lit() {
            Ok(ClientMessageV::Ping)
        } else if verb == echo_lit() {
            Ok(ClientMessageV::Echo(spec_join(toks.drop_first())))
        } else if verb == command_lit() {
            if toks.len() < 2 {
                Err(ProtocolError::Generic)
            } else {
                Ok(ClientMessageV::Command(toks[1]))
            }
        } else if verb == set_lit() {
            if toks.len() < 3 {
                Err(ProtocolError::Generic)
            } else if toks.len() >= 5 && lower(toks[3]) == px_lit() {
                match spec_parse_u32(lower(toks[4])) {
                    Some(v) => Ok(ClientMessageV::SetCmd(toks[1], toks[2], SetOptions { px: Some(v) })),
                    None => Err(ProtocolError::ParseInt),
                }
            } else {
                Ok(ClientMessageV::SetCmd(toks[1], toks[2], SetOptions { px: None }))
            }
        } else if verb == get_lit() {
            if toks.len() < 2 {
                Err(ProtocolError::Generic)
            } else {
                Ok(ClientMessageV::Get(toks[1]))
            }
        } else {
            Err(ProtocolError::Generic)
        }
    }
}

/// Reading one whole request from `buf` at `pos`: one line; an empty line is
/// the end of the session; a line starting with `*` introduces that many
/// bulk-string elements; any other line is an inline command split on
/// whitespace.  The token list then goes through the grammar.
pub open spec fn spec_read_message(buf: Seq<u8>, pos: int) -> Result<
    (ClientMessageV, int),
    ProtocolError,
> {
    match spec_read_line(buf, pos) {
        Err(e) => Err(e),
        Ok((line, p1)) => {
            if line.len() == 0 {
                Err(ProtocolError::ClientConnectionClosed)
            } else if line[0] == 42 {
                match spec_parse_usize(line.drop_first()) {
                    None => Err(ProtocolError::ParseInt),
                    Some(n) => match spec_read_elements(buf, p1, n) {
                        Err(e) => Err(e),
                        Ok((elems, p2)) => match spec_try_from(elems) {
                            Err(e) => Err(e),
                            Ok(m) => Ok((m, p2)),
                        },
                    },
                }
            } else {
                match spec_try_from(spec_split_ws(line)) {
                    Err(e) => Err(e),
                    Ok(m) => Ok((m, p1)),
                }
            }
        },
    }
}

// ---------------------------------------------------------------------------
// Serialization
// ---------------------------------------------------------------------------

/// The line terminator.
pub open spec fn crlf() -> Seq<u8> {
    seq![13u8, 10u8]
}

/// The exact wire bytes of a reply: `$-1` and a terminator for the null
/// string; `$`, the payload's byte length, a terminator, the payload and a
/// terminator for a bulk string; `+`, the text and a terminator for a simple
/// string.
pub open spec fn spec_serialize(m: ServerMessageV) -> Seq<u8> {
    match m {
        ServerMessageV::NullString => seq![36u8, 45u8, 49u8, 13u8, 10u8],
        ServerMessageV::BulkString(b) => seq![36u8] + dec_rep(b.len() as int) + crlf() + b + crlf(),
        ServerMessageV::SimpleString(s) => seq![43u8] + s + crlf(),
    }
}

// ---------------------------------------------------------------------------
// Executable helpers
// ---------------------------------------------------------------------------

/// Returns the vector with its trailing whitespace bytes removed.
fn trim_vec(v: Vec<u8>) -> (r: Vec<u8>)
    ensures
        r@ == trim_ws(v@),
{
    let mut v = v;
    let ghost orig = v@;
    loop
        invariant
            trim_ws(v@) == trim_ws(orig),
        ensures
            trim_ws(v@) == v@,
        decreases v.len(),
    {
        if v.len() == 0 {
            break;
        }
        let c = v[v.len() - 1];
        if !(c == 32 || c == 9 || c == 10 || c == 12 || c == 13) {
            break;
        }
        let ghost before = v@;
        v.pop();
        proof {
            assert(v@ =~= before.drop_last());
        }
    }
    v
}

/// Parses a decimal token as a `usize`.
fn parse_usize(s: &Vec<u8>) -> (r: Result<usize, ProtocolError>)
    ensures
        match r {
            Ok(v) => spec_parse_usize(s@) == Some(v as int),
            Err(e) => e == ProtocolError::ParseInt && spec_parse_usize(s@) is None,
        },
{
    let start: usize = if s.len() > 0 && s[0] == 43 {
        1
    } else {
        0
    };
    let ghost digits = if s@.len() > 0 && s@[0] == 43 {
        s@.drop_first()
    } else {
        s@
    };
    proof {
        assert(digits =~= s@.subrange(start as int, s@.len() as int));
    }
    if s.len() == start {
        return Err(ProtocolError::ParseInt);
    }
    let mut acc: usize = 0;
    let mut i: usize = start;
    while i < s.len()
        invariant
            start <= i <= s@.len(),
            start <= s@.len(),
            start as int == (if s@.len() > 0 && s@[0] == 43 { 1int } else { 0int }),
            digits == s@.subrange(start as int, s@.len() as int),
            digits == (if s@.len() > 0 && s@[0] == 43 { s@.drop_first() } else { s@ }),
            all_digits(s@.subrange(start as int, i as int)),
            acc == dec_val(s@.subrange(start as int, i as int)),
        decreases s.len() - i,
    {
        let c = s[i];
        if c < 48 || c > 57 {
            proof {
                assert(digits[i - start] == c);
                assert(!all_digits(digits));
            }
            return Err(ProtocolError::ParseInt);
        }
        let d = (c - 48) as usize;
        let ghost pre = s@.subrange(start as int, i as int);
        let ghost ext = s@.subrange(start as int, i + 1);
        proof {
            assert(ext.drop_last() =~= pre);
            assert(ext.last() == c);
            assert(dec_val(ext) == acc * 10 + d);
        }
        if acc > (usize::MAX - d) / 10 {
            proof {
                lemma_fundamental_div_mod((usize::MAX - d) as int, 10);
                assert(acc * 10 + d > usize::MAX);
                if digits.len() > 0 && all_digits(digits) {
                    assert(forall|k: int| 0 <= k < ext.len() ==> ext[k] == digits[k]);
                    assert(ext =~= digits.subrange(0, i + 1 - start));
                    lemma_dec_val_prefix_le(digits, i + 1 - start);
                    assert(dec_val(digits) > usize::MAX);
                }
            }
            return Err(ProtocolError::ParseInt);
        }
        proof {
            lemma_fundamental_div_mod((usize::MAX - d) as int, 10);
        }
        acc = acc * 10 + d;
        i += 1;
    }
    proof {
        assert(s@.subrange(start as int, i as int) =~= digits);
    }
    Ok(acc)
}

/// Parses a decimal token as a `u32`.
fn parse_u32(s: &Vec<u8>) -> (r: Result<u32, ProtocolError>)
    ensures
        match r {
            Ok(v) => spec_parse_u32(s@) == Some(v),
            Err(e) => e == ProtocolError::ParseInt && spec_parse_u32(s@) is None,
        },
{
    match parse_usize(s) {
        Err(e) => Err(e),
        Ok(v) => if v <= u32::MAX as usize {
            Ok(v as u32)
        } else {
            Err(ProtocolError::ParseInt)
        },
    }
}

/// ASCII lower-casing of a byte vector.
fn to_lower(s: &Vec<u8>) -> (r: Vec<u8>)
    ensures
        r@ == lower(s@),
{
    let mut r: Vec<u8> = Vec::new();
    let mut i: usize = 0;
    while i < s.len()
        invariant
            i <= s@.len(),
            r@ == lower(s@.subrange(0, i as int)),
        decreases s.len() - i,
    {
        let c = s[i];
        let lc: u8 = if 65 <= c && c <= 90 {
            c + 32
        } else {
            c
        };
        proof {
            assert(lc == lower_byte(s@[i as int]));
            assert(lower(s@.subrange(0, i + 1)) =~= lower(s@.subrange(0, i as int)).push(
                lower_byte(s@[i as int]),
            ));
        }
        r.push(lc);
        i += 1;
    }
    proof {
        assert(s@.subrange(0, s@.len() as int) =~= s@);
    }
    r
}

/// Appends the decimal digits of `n` to `out`.
fn push_dec(out: &mut Vec<u8>, n: usize)
    ensures
        final(out)@ == old(out)@ + dec_rep(n as int),
    decreases n,
{
    if n < 10 {
        out.push(48 + n as u8);
        proof {
            assert(final(out)@ =~= old(out)@ + dec_rep(n as int));
        }
    } else {
        push_dec(out, n / 10);
        out.push(48 + (n % 10) as u8);
        proof {
            assert(final(out)@ =~= old(out)@ + dec_rep(n as int));
        }
    }
}

// ---------------------------------------------------------------------------
// Frame-level parsing
// ---------------------------------------------------------------------------

/// Reads one line: the bytes up to the first line feed, trailing whitespace
/// trimmed, and the position just past the line feed.
pub fn read_line(buf: &Vec<u8>, pos: usize) -> (r: Result<(Vec<u8>, usize), ProtocolError>)
    ensures
        match r {
            Ok(p) => spec_read_line(buf@, pos as int) == Ok::<_, ProtocolError>(
                (p.0@, p.1 as int),
            ) && p.1 <= buf@.len(),
            Err(e) => spec_read_line(buf@, pos as int) == Err::<(Seq<u8>, int), _>(e),
        },
{
    if pos >= buf.len() {
        return Err(ProtocolError::Incomplete);
    }
    let mut j: usize = pos;
    while j < buf.len() && buf[j] != 10
        invariant
            pos <= j <= buf@.len(),
            first_lf(buf@, pos as int) == first_lf(buf@, j as int),
        decreases buf.len() - j,
    {
        j += 1;
    }
    if j == buf.len() {
        return Err(ProtocolError::Incomplete);
    }
    let raw = copy_range(buf, pos, j);
    Ok((trim_vec(raw), j + 1))
}

/// Reads exactly `n` raw bytes.
pub fn read_n(buf: &Vec<u8>, pos: usize, n: usize) -> (r: Result<(Vec<u8>, usize), ProtocolError>)
    ensures
        match r {
            Ok(p) => spec_read_n(buf@, pos as int, n as int) == Ok::<_, ProtocolError>(
                (p.0@, p.1 as int),
            ) && p.1 <= buf@.len(),
            Err(e) => spec_read_n(buf@, pos as int, n as int) == Err::<(Seq<u8>, int), _>(e),
        },
{
    if pos > buf.len() || n > buf.len() - pos {
        return Err(ProtocolError::Incomplete);
    }
    let data = copy_range(buf, pos, pos + n);
    Ok((data, pos + n))
}

/// Expects the exact bytes of `value` at `pos`.
pub fn read_literal(buf: &Vec<u8>, pos: usize, value: &Vec<u8>) -> (r: Result<
    usize,
    ProtocolError,
>)
    ensures
        match r {
            Ok(p) => spec_read_literal(buf@, pos as int, value@) == Ok::<_, ProtocolError>(
                p as int,
            ) && p <= buf@.len(),
            Err(e) => spec_read_literal(buf@, pos as int, value@) == Err::<int, _>(e),
        },
{
    if pos > buf.len() || value.len() > buf.len() - pos {
        return Err(ProtocolError::Incomplete);
    }
    let found = copy_range(buf, pos, pos + value.len());
    if bytes_eq(&found, value) {
        Ok(pos + value.len())
    } else {
        Err(ProtocolError::ParsingFailed)
    }
}

/// Reads one line and parses it as a decimal length.
pub fn read_length(buf: &Vec<u8>, pos: usize) -> (r: Result<(usize, usize), ProtocolError>)
    ensures
        match r {
            Ok(p) => spec_read_length(buf@, pos as int) == Ok::<_, ProtocolError>(
                (p.0 as int, p.1 as int),
            ) && p.1 <= buf@.len(),
            Err(e) => spec_read_length(buf@, pos as int) == Err::<(int, int), _>(e),
        },
{
    match read_line(buf, pos) {
        Err(e) => Err(e),
        Ok((line, p)) => match parse_usize(&line) {
            Ok(n) => Ok((n, p)),
            Err(_) => Err(ProtocolError::ParseInt),
        },
    }
}

/// Reads one bulk-string element: `$`, a byte length, that many raw bytes,
/// then skips the two terminator bytes.
pub fn read_bulk_str_element(buf: &Vec<u8>, pos: usize) -> (r: Result<
    (Vec<u8>, usize),
    ProtocolError,
>)
    ensures
        match r {
            Ok(p) => spec_read_bulk(buf@, pos as int) == Ok::<_, ProtocolError>(
                (p.0@, p.1 as int),
            ) && p.1 <= buf@.len(),
            Err(e) => spec_read_bulk(buf@, pos as int) == Err::<(Seq<u8>, int), _>(e),
        },
{
    let mut dollar: Vec<u8> = Vec::new();
    dollar.push(36);
    proof {
        assert(dollar@ =~= seq![36u8]);
    }
    let p1 = match read_literal(buf, pos, &dollar) {
        Ok(p) => p,
        Err(e) => {
            return Err(e);
        },
    };
    let (n, p2) = match read_length(buf, p1) {
        Ok(q) => q,
        Err(e) => {
            return Err(e);
        },
    };
    let (data, p3) = match read_n(buf, p2, n) {
        Ok(q) => q,
        Err(e) => {
            return Err(e);
        },
    };
    if buf.len() - p3 >= 2 {
        Ok((data, p3 + 2))
    } else {
        Err(ProtocolError::Incomplete)
    }
}

/// Reads `n` bulk-string elements in a row.
fn read_elements(buf: &Vec<u8>, pos: usize, n: usize) -> (r: Result<
    (Vec<Vec<u8>>, usize),
    ProtocolError,
>)
    ensures
        match r {
            Ok(p) => spec_read_elements(buf@, pos as int, n as int) == Ok::<_, ProtocolError>(
                (views_of(p.0@), p.1 as int),
            ) && (pos <= buf@.len() ==> p.1 <= buf@.len()),
            Err(e) => spec_read_elements(buf@, pos as int, n as int) == Err::<
                (Seq<Seq<u8>>, int),
                _,
            >(e),
        },
{
    let mut elems: Vec<Vec<u8>> = Vec::new();
    let mut p: usize = pos;
    let mut i: usize = 0;
    while i < n
        invariant
            i <= n,
            pos <= buf@.len() ==> p <= buf@.len(),
            spec_read_elements(buf@, pos as int, n as int) == (match spec_read_elements(
                buf@,
                p as int,
                n as int - i as int,
            ) {
                Ok(q) => Ok::<_, ProtocolError>((views_of(elems@) + q.0, q.1)),
                Err(e) => Err::<(Seq<Seq<u8>>, int), _>(e),
            }),
        decreases n - i,
    {
        match read_bulk_str_element(buf, p) {
            Err(e) => {
                return Err(e);
            },
            Ok((d, p2)) => {
                let ghost elems0 = elems@;
                let ghost rest = spec_read_elements(buf@, p2 as int, n as int - i as int - 1);
                elems.push(d);
                proof {
                    assert(views_of(elems@) =~= views_of(elems0).push(d@));
                    match rest {
                        Ok(q) => {
                            assert(views_of(elems0) + (seq![d@] + q.0) =~= views_of(elems@)
                                + q.0);
                        },
                        Err(_) => {},
                    }
                }
                p = p2;
                i += 1;
            },
        }
    }
    proof {
        assert(views_of(elems@) + Seq::<Seq<u8>>::empty() =~= views_of(elems@));
    }
    Ok((elems, p))
}

/// Splits a line into its whitespace-separated tokens.
fn split_ws(line: &Vec<u8>) -> (r: Vec<Vec<u8>>)
    ensures
        views_of(r@) == spec_split_ws(line@),
{
    let mut toks: Vec<Vec<u8>> = Vec::new();
    let mut i: usize = 0;
    while i < line.len()
        invariant
            i <= line@.len(),
            spec_split_ws_at(line@, 0) == views_of(toks@) + spec_split_ws_at(line@, i as int),
        decreases line.len() - i,
    {
        let c = line[i];
        if c == 32 || c == 9 || c == 10 || c == 12 || c == 13 {
            i += 1;
        } else {
            let start = i;
            let mut j = i;
            while j < line.len() && !(line[j] == 32 || line[j] == 9 || line[j] == 10 || line[j]
                == 12 || line[j] == 13)
                invariant
                    start <= j <= line@.len(),
                    start < line@.len(),
                    !is_ws(line@[start as int]),
                    token_end(line@, start as int) == token_end(line@, j as int),
                decreases line.len() - j,
            {
                j += 1;
            }
            let tok = copy_range(line, start, j);
            let ghost toks0 = toks@;
            toks.push(tok);
            proof {
                assert(token_end(line@, j as int) == j);
                assert(views_of(toks@) =~= views_of(toks0).push(tok@));
                assert(views_of(toks0) + (seq![tok@] + spec_split_ws_at(line@, j as int))
                    =~= views_of(toks@) + spec_split_ws_at(line@, j as int));
            }
            i = j;
        }
    }
    proof {
        assert(views_of(toks@) + Seq::<Seq<u8>>::empty() =~= views_of(toks@));
    }
    toks
}

/// Joins the tokens from index `from` on with single spaces.
fn join_from(toks: &Vec<Vec<u8>>, from: usize) -> (r: Vec<u8>)
    requires
        from <= toks@.len(),
    ensures
        r@ == spec_join(views_of(toks@).skip(from as int)),
    decreases toks@.len() - from,
{
    let ghost sk = views_of(toks@).skip(from as int);
    if from >= toks.len() {
        proof {
            assert(sk =~= Seq::<Seq<u8>>::empty());
        }
        Vec::new()
    } else if from + 1 == toks.len() {
        let r = clone_bytes(&toks[from]);
        proof {
            assert(sk.len() == 1);
            assert(sk[0] == toks@[from as int]@);
        }
        r
    } else {
        let mut r = clone_bytes(&toks[from]);
        r.push(32);
        let rest = join_from(toks, from + 1);
        append_bytes(&mut r, &rest);
        proof {
            assert(sk.len() >= 2);
            assert(sk[0] == toks@[from as int]@);
            assert(sk.drop_first() =~= views_of(toks@).skip(from + 1));
            assert(r@ =~= sk[0] + seq![32u8] + spec_join(sk.drop_first()));
        }
        r
    }
}

// ---------------------------------------------------------------------------
// Verb literals
// ---------------------------------------------------------------------------

fn ping_vec() -> (r: Vec<u8>)
    ensures
        r@ == ping_lit(),
{
    let mut v: Vec<u8> = Vec::new();
    v.push(112);
    v.push(105);
    v.push(110);
    v.push(103);
    proof {
        assert(v@ =~= ping_lit());
    }
    v
}

fn echo_vec() -> (r: Vec<u8>)
    ensures
        r@ == echo_lit(),
{
    let mut v: Vec<u8> = Vec::new();
    v.push(101);
    v.push(99);
    v.push(104);
    v.push(111);
    proof {
        assert(v@ =~= echo_lit());
    }
    v
}

fn command_vec() -> (r: Vec<u8>)
    ensures
        r@ == command_lit(),
{
    let mut v: Vec<u8> = Vec::new();
    v.push(99);
    v.push(111);
    v.push(109);
    v.push(109);
    v.push(97);
    v.push(110);
    v.push(100);
    proof {
        assert(v@ =~= command_lit());
    }
    v
}

fn set_vec() -> (r: Vec<u8>)
    ensures
        r@ == set_lit(),
{
    let mut v: Vec<u8> = Vec::new();
    v.push(115);
    v.push(101);
    v.push(116);
    proof {
        assert(v@ =~= set_lit());
    }
    v
}

fn get_vec() -> (r: Vec<u8>)
    ensures
        r@ == get_lit(),
{
    let mut v: Vec<u8> = Vec::new();
    v.push(103);
    v.push(101);
    v.push(116);
    proof {
        assert(v@ =~= get_lit());
    }
    v
}

fn px_vec() -> (r: Vec<u8>)
    ensures
        r@ == px_lit(),
{
    let mut v: Vec<u8> = Vec::new();
    v.push(112);
    v.push(120);
    proof {
        assert(v@ =~= px_lit());
    }
    v
}

// ---------------------------------------------------------------------------
// The grammar, executed
// ---------------------------------------------------------------------------

impl ClientMessage {
    /// Maps a token list to a request, per the command grammar.
    pub fn try_from(tokens: Vec<Vec<u8>>) -> (r: Result<ClientMessage, ProtocolError>)
        ensures
            match r {
                Ok(m) => spec_try_from(views_of(tokens@)) == Ok::<_, ProtocolError>(m@),
                Err(e) => spec_try_from(views_of(tokens@)) == Err::<ClientMessageV, _>(e),
            },
    {
        let ghost toks = views_of(tokens@);
        if tokens.len() == 0 {
            return Err(ProtocolError::Generic);
        }
        proof {
            assert(toks[0] == tokens@[0]@);
        }
        let verb = to_lower(&tokens[0]);
        if bytes_eq(&verb, &ping_vec()) {
            Ok(ClientMessage::Ping)
        } else if bytes_eq(&verb, &echo_vec()) {
            let text = join_from(&tokens, 1);
            proof {
                assert(toks.drop_first() =~= toks.skip(1));
            }
            Ok(ClientMessage::Echo(text))
        } else if bytes_eq(&verb, &command_vec()) {
            if tokens.len() < 2 {
                return Err(ProtocolError::Generic);
            }
            proof {
                assert(toks[1] == tokens@[1]@);
            }
            Ok(ClientMessage::Command(clone_bytes(&tokens[1])))
        } else if bytes_eq(&verb, &set_vec()) {
            if tokens.len() < 3 {
                return Err(ProtocolError::Generic);
            }
            proof {
                assert(toks[1] == tokens@[1]@);
                assert(toks[2] == tokens@[2]@);
            }
            let name = clone_bytes(&tokens[1]);
            let val = clone_bytes(&tokens[2]);
            if tokens.len() >= 5 {
                proof {
                    assert(toks[3] == tokens@[3]@);
                    assert(toks[4] == tokens@[4]@);
                }
                let option_key = to_lower(&tokens[3]);
                if bytes_eq(&option_key, &px_vec()) {
                    let option_value = to_lower(&tokens[4]);
                    match parse_u32(&option_value) {
                        Ok(v) => Ok(ClientMessage::SetCmd(name, val, SetOptions { px: Some(v) })),
                        Err(_) => Err(ProtocolError::ParseInt),
                    }
                } else {
                    Ok(ClientMessage::SetCmd(name, val, SetOptions { px: None }))
                }
            } else {
                Ok(ClientMessage::SetCmd(name, val, SetOptions { px: None }))
            }
        } else if bytes_eq(&verb, &get_vec()) {
            if tokens.len() < 2 {
                return Err(ProtocolError::Generic);
            }
            proof {
                assert(toks[1] == tokens@[1]@);
            }
            Ok(ClientMessage::Get(clone_bytes(&tokens[1])))
        } else {
            Err(ProtocolError::Generic)
        }
    }
}

// ---------------------------------------------------------------------------
// The codec object
// ---------------------------------------------------------------------------

/// The RESP-style codec over byte buffers: bytes read from a connection are
/// fed into `input`; `pos` marks how far they have been parsed; the wire
/// bytes of replies accumulate in `output` until the caller takes them.
pub struct Resp2 {
    input: Vec<u8>,
    pos: usize,
    output: Vec<u8>,
}

/// The mathematical model of a codec: both buffers and the parse position.
pub struct Resp2V {
    pub input: Seq<u8>,
    pub pos: int,
    pub output: Seq<u8>,
}

impl View for Resp2 {
    type V = Resp2V;

    closed spec fn view(&self) -> Resp2V {
        Resp2V { input: self.input@, pos: self.pos as int, output: self.output@ }
    }
}

impl Resp2 {
    /// A codec with nothing buffered.
    pub fn new() -> (r: Resp2)
        ensures
            r@.input == Seq::<u8>::empty(),
            r@.pos == 0,
            r@.output == Seq::<u8>::empty(),
    {
        Resp2 { input: Vec::new(), pos: 0, output: Vec::new() }
    }

    /// Buffers more bytes read from the connection.
    pub fn feed(&mut self, data: &Vec<u8>)
        ensures
            final(self)@.input == old(self)@.input + data@,
            final(self)@.pos == old(self)@.pos,
            final(self)@.output == old(self)@.output,
    {
        append_bytes(&mut self.input, data);
    }

    /// Hands out the queued reply bytes and empties the output buffer.
    pub fn take_output(&mut self) -> (r: Vec<u8>)
        ensures
            r@ == old(self)@.output,
            final(self)@.output == Seq::<u8>::empty(),
            final(self)@.input == old(self)@.input,
            final(self)@.pos == old(self)@.pos,
    {
        let r = clone_bytes(&self.output);
        self.output.clear();
        r
    }

    /// Parses the next request from the buffered bytes, consuming it on
    /// success and consuming nothing on any error.
    pub fn read_message(&mut self) -> (r: Result<ClientMessage, ProtocolError>)
        ensures
            final(self)@.input == old(self)@.input,
            final(self)@.output == old(self)@.output,
            match r {
                Ok(m) => spec_read_message(old(self)@.input, old(self)@.pos) == Ok::<
                    _,
                    ProtocolError,
                >((m@, final(self)@.pos)) && final(self)@.pos <= old(self)@.input.len(),
                Err(e) => spec_read_message(old(self)@.input, old(self)@.pos) == Err::<
                    (ClientMessageV, int),
                    _,
                >(e) && final(self)@.pos == old(self)@.pos,
            },
    {
        let (line, p1) = match read_line(&self.input, self.pos) {
            Ok(q) => q,
            Err(e) => {
                return Err(e);
            },
        };
        if line.len() == 0 {
            return Err(ProtocolError::ClientConnectionClosed);
        }
        if line[0] == 42 {
            let rest = copy_range(&line, 1, line.len());
            proof {
                assert(rest@ =~= line@.drop_first());
            }
            let n = match parse_usize(&rest) {
                Ok(n) => n,
                Err(_) => {
                    return Err(ProtocolError::ParseInt);
                },
            };
            let (elems, p2) = match read_elements(&self.input, p1, n) {
                Ok(q) => q,
                Err(e) => {
                    return Err(e);
                },
            };
            let m = match ClientMessage::try_from(elems) {
                Ok(m) => m,
                Err(e) => {
                    return Err(e);
                },
            };
            self.pos = p2;
            Ok(m)
        } else {
            let toks = split_ws(&line);
            let m = match ClientMessage::try_from(toks) {
                Ok(m) => m,
                Err(e) => {
                    return Err(e);
                },
            };
            self.pos = p1;
            Ok(m)
        }
    }

    /// Serializes one reply, appending its exact wire bytes to the output
    /// buffer.  Serialization itself cannot fail.
    pub fn write_message(&mut self, msg: &ServerMessage) -> (r: Result<(), ProtocolError>)
        ensures
            r is Ok,
            final(self)@.output == old(self)@.output + spec_serialize(msg@),
            final(self)@.input == old(self)@.input,
            final(self)@.pos == old(self)@.pos,
    {
        match msg {
            ServerMessage::NullString => {
                self.output.push(36);
                self.output.push(45);
                self.output.push(49);
                self.output.push(13);
                self.output.push(10);
                proof {
                    assert(self.output@ =~= old(self).output@ + spec_serialize(msg@));
                }
            },
            ServerMessage::BulkString(b) => {
                self.output.push(36);
                push_dec(&mut self.output, b.len());
                self.output.push(13);
                self.output.push(10);
                append_bytes(&mut self.output, b);
                self.output.push(13);
                self.output.push(10);
                proof {
                    assert(self.output@ =~= old(self).output@ + spec_serialize(msg@));
                }
            },
            ServerMessage::SimpleString(s) => {
                self.output.push(43);
                append_bytes(&mut self.output, s);
                self.output.push(13);
                self.output.push(10);
                proof {
                    assert(self.output@ =~= old(self).output@ + spec_serialize(msg@));
                }
            },
        }
        Ok(())
    }
}

/// Serializing a reply reproduces the exact byte layout when read back.  A
/// bulk string's wire bytes parse back, as one frame element, to exactly the
/// payload, consuming exactly the serialized bytes — in particular the length
/// prefix matches the payload's byte length.  The null and simple strings are
/// their literal one-line layouts.
pub proof fn lemma_serialize_round_trip(m: ServerMessageV)
    requires
        m matches ServerMessageV::BulkString(b) ==> b.len() <= usize::MAX,
    ensures
        m matches ServerMessageV::BulkString(b) ==> spec_read_bulk(spec_serialize(m), 0) == Ok::<
            _,
            ProtocolError,
        >((b, spec_serialize(m).len() as int)),
        m is NullString ==> spec_serialize(m) == seq![36u8, 45u8, 49u8, 13u8, 10u8],
        m matches ServerMessageV::SimpleString(s) ==> spec_serialize(m) == seq![43u8] + s
            + crlf(),
{
    match m {
        ServerMessageV::BulkString(b) => {
            let n = b.len() as int;
            lemma_dec_rep(n);
            let d = dec_rep(n);
            let ll = d.len() as int;
            let out = spec_serialize(m);
            assert(out == seq![36u8] + d + crlf() + b + crlf());
            assert(out.len() == 5 + ll + n);
            assert forall|k: int| 0 <= k < ll implies out[1 + k] == d[k] by {}
            assert(out[1 + ll] == 13);
            assert(out[2 + ll] == 10);
            // the dollar literal
            assert(out.subrange(0, 1) =~= seq![36u8]);
            assert(spec_read_literal(out, 0, seq![36u8]) == Ok::<int, ProtocolError>(1));
            // the length line ends at the first line feed, just past the digits
            assert forall|k: int| 1 <= k < 2 + ll implies out[k] != 10 by {
                if k < 1 + ll {
                    assert(out[k] == d[k - 1]);
                    assert(is_digit(d[k - 1]));
                }
            }
            lemma_first_lf_at(out, 1, 2 + ll);
            let raw = out.subrange(1, 1 + ll + 1);
            assert(raw =~= d + seq![13u8]);
            assert(raw.drop_last() =~= d);
            assert(is_ws(raw.last()));
            assert(is_digit(d.last()));
            assert(!is_ws(d.last()));
            assert(trim_ws(d) == d);
            assert(trim_ws(raw) == trim_ws(raw.drop_last()));
            assert(trim_ws(raw) == d);
            assert(spec_read_line(out, 1) == Ok::<_, ProtocolError>((d, 3 + ll)));
            // the digits parse back to exactly the payload length
            assert(is_digit(d[0]));
            assert(d[0] != 43);
            assert(parse_dec(d) == Some(n));
            assert(spec_read_length(out, 1) == Ok::<_, ProtocolError>((n, 3 + ll)));
            // the raw bytes are exactly the payload
            assert(out.subrange(3 + ll, 3 + ll + n) =~= b);
            assert(spec_read_n(out, 3 + ll, n) == Ok::<_, ProtocolError>((b, 3 + ll + n)));
            assert(3 + ll + n + 2 == out.len());
        },
        ServerMessageV::NullString => {},
        ServerMessageV::SimpleString(_) => {},
    }
}

impl crate::proto::base::Protocol for Resp2 {
    type ClientMessage = ClientMessage;

    type ServerMessage = ServerMessage;

    type Error = ProtocolError;

    fn read_message(&mut self) -> Result<ClientMessage, ProtocolError> {
        Resp2::read_message(self)
    }

    fn write_message(&mut self, msg: &ServerMessage) -> Result<(), ProtocolError> {
        Resp2::write_message(self, msg)
    }
}

} // verus!
