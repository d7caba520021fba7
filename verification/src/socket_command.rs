//! Control-plane commands: the closed set of tagged variants shared by the
//! binary wire form and the textual grammar, with the canonical binary
//! encoding and both decoders.

use vstd::prelude::*;

use crate::error::Error;
use crate::fan::{spec_fan_of, Fan};
use crate::hid::{spec_le16, validate_fan_speed, LED_COUNT_TOTAL};
use crate::shared_state::SharedState;
use crate::socket_response::{spec_response_bytes, SocketResponse};
use crate::text::{
    chars_eq_str, lemma_dec_val_nonneg, parse_u16_decimal, spec_dec_val, spec_is_dec_bounded,
    spec_split_ws, split_tokens, str_chars,
};

verus! {

pub const SOCKET_COMMAND_GET_COOLANT_TEMP: u8 = 0;

pub const SOCKET_COMMAND_GET_PUMP_SPEED: u8 = 1;

pub const SOCKET_COMMAND_SET_PUMP_SPEED: u8 = 2;

pub const SOCKET_COMMAND_SET_COLORS: u8 = 3;

/// One LED color as a red, green, blue triple.
#[derive(Debug, Clone, Copy, PartialEq, Eq, Structural)]
pub struct Rgb {
    pub r: u8,
    pub g: u8,
    pub b: u8,
}

/// The full device lighting state: one color per LED, sent only as a whole.
pub type Colors = Vec<Rgb>;

/// A control-plane command.
#[derive(Debug)]
pub enum SocketCommand {
    GetCoolantTemp,
    GetPumpSpeed,
    SetFanTarget(Fan, u16),
    SetColors(Colors),
}

/// The mathematical form of a command, with the color buffer as a sequence.
pub enum SocketCommandView {
    GetCoolantTemp,
    GetPumpSpeed,
    SetFanTarget(Fan, u16),
    SetColors(Seq<Rgb>),
}

impl View for SocketCommand {
    type V = SocketCommandView;

    open spec fn view(&self) -> SocketCommandView {
        match self {
            SocketCommand::GetCoolantTemp => SocketCommandView::GetCoolantTemp,
            SocketCommand::GetPumpSpeed => SocketCommandView::GetPumpSpeed,
            SocketCommand::SetFanTarget(f, s) => SocketCommandView::SetFanTarget(*f, *s),
            SocketCommand::SetColors(c) => SocketCommandView::SetColors(c@),
        }
    }
}

impl SocketCommandView {
    /// Well-formed commands: a fan that the wire index range covers, and a
    /// color buffer of exactly one triple per LED.
    pub open spec fn wf(self) -> bool {
        match self {
            SocketCommandView::GetCoolantTemp => true,
            SocketCommandView::GetPumpSpeed => true,
            SocketCommandView::SetFanTarget(f, _) => f.wf(),
            SocketCommandView::SetColors(c) => c.len() == LED_COUNT_TOTAL,
        }
    }
}

impl SocketCommand {
    pub open spec fn wf(self) -> bool {
        self@.wf()
    }
}

/// A color sequence flattened to consecutive red, green, blue bytes.
pub open spec fn spec_rgb_flat(s: Seq<Rgb>) -> Seq<u8>
    decreases s.len(),
{
    if s.len() == 0 {
        Seq::empty()
    } else {
        seq![s[0].r, s[0].g, s[0].b] + spec_rgb_flat(s.skip(1))
    }
}

/// Consecutive red, green, blue bytes gathered back into triples.
pub open spec fn spec_rgb_unflat(s: Seq<u8>) -> Seq<Rgb> {
    Seq::new(s.len() / 3, |i: int| Rgb { r: s[3 * i], g: s[3 * i + 1], b: s[3 * i + 2] })
}

pub proof fn lemma_rgb_flat_len(s: Seq<Rgb>)
    ensures
        spec_rgb_flat(s).len() == 3 * s.len(),
    decreases s.len(),
{
    if s.len() > 0 {
        lemma_rgb_flat_len(s.skip(1));
    }
}

pub proof fn lemma_rgb_flat_index(s: Seq<Rgb>, i: int)
    requires
        0 <= i < s.len(),
    ensures
        spec_rgb_flat(s)[3 * i] == s[i].r,
        spec_rgb_flat(s)[3 * i + 1] == s[i].g,
        spec_rgb_flat(s)[3 * i + 2] == s[i].b,
    decreases i,
{
    lemma_rgb_flat_len(s.skip(1));
    if i > 0 {
        lemma_rgb_flat_index(s.skip(1), i - 1);
    }
}

pub proof fn lemma_rgb_unflat_flat(s: Seq<Rgb>)
    ensures
        spec_rgb_unflat(spec_rgb_flat(s)) == s,
{
    lemma_rgb_flat_len(s);
    assert forall|i: int| 0 <= i < s.len() implies spec_rgb_unflat(spec_rgb_flat(s))[i]
        == s[i] by {
        lemma_rgb_flat_index(s, i);
    }
    assert(spec_rgb_unflat(spec_rgb_flat(s)) =~= s);
}

pub proof fn lemma_rgb_flat_unflat(s: Seq<u8>)
    requires
        s.len() % 3 == 0,
    ensures
        spec_rgb_flat(spec_rgb_unflat(s)) == s,
{
    let u = spec_rgb_unflat(s);
    lemma_rgb_flat_len(u);
    assert forall|j: int| 0 <= j < s.len() implies spec_rgb_flat(u)[j] == s[j] by {
        let i = j / 3;
        lemma_rgb_flat_index(u, i);
        assert(3 * i <= j < 3 * i + 3);
        if j == 3 * i {
            assert(spec_rgb_flat(u)[j] == u[i].r);
        } else if j == 3 * i + 1 {
            assert(spec_rgb_flat(u)[j] == u[i].g);
        } else {
            assert(spec_rgb_flat(u)[j] == u[i].b);
        }
    }
    assert(spec_rgb_flat(u) =~= s);
}

pub proof fn lemma_rgb_flat_push(s: Seq<Rgb>, c: Rgb)
    ensures
        spec_rgb_flat(s.push(c)) == spec_rgb_flat(s) + seq![c.r, c.g, c.b],
    decreases s.len(),
{
    if s.len() == 0 {
        assert(s.push(c)[0] == c);
        assert(s.push(c).skip(1) =~= Seq::<Rgb>::empty());
        assert(spec_rgb_flat(s.push(c).skip(1)) == Seq::<u8>::empty());
        assert(spec_rgb_flat(s.push(c)) =~= spec_rgb_flat(s) + seq![c.r, c.g, c.b]);
    } else {
        assert(s.push(c).skip(1) =~= s.skip(1).push(c));
        lemma_rgb_flat_push(s.skip(1), c);
        assert(spec_rgb_flat(s.push(c)) =~= spec_rgb_flat(s) + seq![c.r, c.g, c.b]);
    }
}

/// The canonical binary encoding of a command: its tag byte followed by
/// fixed-width little-endian fields, with a color buffer flattened to
/// consecutive red, green, blue bytes.
pub open spec fn spec_command_bytes(c: SocketCommandView) -> Seq<u8> {
    match c {
        SocketCommandView::GetCoolantTemp => seq![SOCKET_COMMAND_GET_COOLANT_TEMP],
        SocketCommandView::GetPumpSpeed => seq![SOCKET_COMMAND_GET_PUMP_SPEED],
        SocketCommandView::SetFanTarget(f, s) => seq![
            SOCKET_COMMAND_SET_PUMP_SPEED,
            f.spec_index() as u8,
            (s % 256) as u8,
            (s / 256) as u8,
        ],
        SocketCommandView::SetColors(cs) => seq![SOCKET_COMMAND_SET_COLORS] + spec_rgb_flat(cs),
    }
}

/// What the binary decoder yields on a payload: the command and how many
/// bytes of the payload it consumed, or nothing if the payload is not (yet)
/// a well-formed command.
pub open spec fn spec_parse_command(s: Seq<u8>) -> Option<(SocketCommandView, int)> {
    if s.len() < 1 {
        None
    } else if s[0] == SOCKET_COMMAND_GET_COOLANT_TEMP {
        Some((SocketCommandView::GetCoolantTemp, 1))
    } else if s[0] == SOCKET_COMMAND_GET_PUMP_SPEED {
        Some((SocketCommandView::GetPumpSpeed, 1))
    } else if s[0] == SOCKET_COMMAND_SET_PUMP_SPEED {
        if s.len() < 4 || s[1] > 7 {
            None
        } else {
            Some(
                (
                    SocketCommandView::SetFanTarget(
                        spec_fan_of(s[1] as int),
                        spec_le16(s[2], s[3]) as u16,
                    ),
                    4,
                ),
            )
        }
    } else if s[0] == SOCKET_COMMAND_SET_COLORS {
        if s.len() < 1 + 3 * LED_COUNT_TOTAL {
            None
        } else {
            Some(
                (
                    SocketCommandView::SetColors(
                        spec_rgb_unflat(s.subrange(1, 1 + 3 * LED_COUNT_TOTAL)),
                    ),
                    1 + 3 * LED_COUNT_TOTAL,
                ),
            )
        }
    } else {
        None
    }
}

/// Every successful parse consumes at least the tag byte and no more than
/// the payload it was given, and yields a well-formed command.
pub proof fn lemma_parse_command_bounds(s: Seq<u8>)
    ensures
        spec_parse_command(s) matches Some(p) ==> 1 <= p.1 <= s.len() && p.0.wf(),
{
    if spec_parse_command(s) is Some {
        let (c, used) = spec_parse_command(s).unwrap();
        if s[0] == SOCKET_COMMAND_SET_COLORS && s.len() >= 1 + 3 * LED_COUNT_TOTAL {
            assert(spec_rgb_unflat(s.subrange(1, 1 + 3 * LED_COUNT_TOTAL)).len()
                == LED_COUNT_TOTAL);
        }
    }
}

/// A successful parse reads only the bytes it consumes: any extension of
/// the payload beyond them parses identically.
pub proof fn lemma_parse_command_prefix(s: Seq<u8>, t: Seq<u8>)
    requires
        spec_parse_command(s) matches Some(p) && p.1 <= t.len(),
        t.len() <= s.len() ==> t == s.subrange(0, t.len() as int),
        t.len() > s.len() ==> s == t.subrange(0, s.len() as int),
    ensures
        spec_parse_command(t) == spec_parse_command(s),
{
    let (c, used) = spec_parse_command(s).unwrap();
    assert(forall|i: int| 0 <= i < s.len() && i < t.len() ==> s[i] == t[i]);
    if s[0] == SOCKET_COMMAND_SET_COLORS {
        assert(s.len() >= 1 + 3 * LED_COUNT_TOTAL);
        assert(t.len() >= 1 + 3 * LED_COUNT_TOTAL);
        assert(s.subrange(1, 1 + 3 * LED_COUNT_TOTAL) =~= t.subrange(1, 1 + 3 * LED_COUNT_TOTAL));
    }
}

/// Encoding then decoding yields the command back, consuming exactly the
/// encoded bytes, for every well-formed command.
pub proof fn lemma_command_roundtrip(c: SocketCommandView)
    requires
        c.wf(),
    ensures
        spec_parse_command(spec_command_bytes(c)) == Some(
            (c, spec_command_bytes(c).len() as int),
        ),
{
    let b = spec_command_bytes(c);
    match c {
        SocketCommandView::GetCoolantTemp => {
        },
        SocketCommandView::GetPumpSpeed => {
        },
        SocketCommandView::SetFanTarget(f, s) => {
            assert(0 <= f.spec_index() <= 7);
            assert(b[1] == f.spec_index() as u8);
            assert(spec_fan_of(b[1] as int) == f);
            assert(spec_le16(b[2], b[3]) == (s % 256) + 256 * (s / 256));
            assert((s % 256) + 256 * (s / 256) == s) by {
                assert(s % 256 == s - 256 * (s / 256)) by (nonlinear_arith);
            }
        },
        SocketCommandView::SetColors(cs) => {
            lemma_rgb_flat_len(cs);
            assert(b.len() == 1 + 3 * LED_COUNT_TOTAL);
            assert(b.subrange(1, 1 + 3 * LED_COUNT_TOTAL) =~= spec_rgb_flat(cs));
            lemma_rgb_unflat_flat(cs);
        },
    }
}

impl SocketCommand {
    /// Encode this command into its canonical binary form.
    pub fn to_bytes(&self) -> (r: Vec<u8>)
        requires
            self.wf(),
        ensures
            r@ == spec_command_bytes(self@),
    {
        match self {
            SocketCommand::GetCoolantTemp => {
                let mut r: Vec<u8> = Vec::new();
                r.push(SOCKET_COMMAND_GET_COOLANT_TEMP);
                proof {
                    assert(r@ =~= spec_command_bytes(self@));
                }
                r
            },
            SocketCommand::GetPumpSpeed => {
                let mut r: Vec<u8> = Vec::new();
                r.push(SOCKET_COMMAND_GET_PUMP_SPEED);
                proof {
                    assert(r@ =~= spec_command_bytes(self@));
                }
                r
            },
            SocketCommand::SetFanTarget(fan, speed) => {
                let mut r: Vec<u8> = Vec::new();
                r.push(SOCKET_COMMAND_SET_PUMP_SPEED);
                r.push(fan.index());
                r.push((*speed % 256) as u8);
                r.push((*speed / 256) as u8);
                proof {
                    assert(r@ =~= spec_command_bytes(self@));
                }
                r
            },
            SocketCommand::SetColors(colors) => {
                let mut r: Vec<u8> = Vec::new();
                r.push(SOCKET_COMMAND_SET_COLORS);
                let mut i: usize = 0;
                while i < colors.len()
                    invariant
                        i <= colors@.len(),
                        r@ == seq![SOCKET_COMMAND_SET_COLORS] + spec_rgb_flat(colors@.take(
                            i as int,
                        )),
                    decreases colors@.len() - i,
                {
                    let c = colors[i];
                    r.push(c.r);
                    r.push(c.g);
                    r.push(c.b);
                    proof {
                        let pre = colors@.take(i as int);
                        assert(colors@.take(i + 1) =~= pre.push(colors@[i as int]));
                        lemma_rgb_flat_push(pre, colors@[i as int]);
                        assert(r@ =~= seq![SOCKET_COMMAND_SET_COLORS] + spec_rgb_flat(
                            colors@.take(i + 1),
                        ));
                    }
                    i += 1;
                }
                proof {
                    assert(colors@.take(colors@.len() as int) =~= colors@);
                }
                r
            },
        }
    }
}

/// What executing a command asks of the owners of the fan-target channel
/// and the color broadcast; reads of shared state have no effect beyond
/// their reply.
#[derive(Debug)]
pub enum CommandEffect {
    Nothing,
    /// Forward this clamped target to the orchestrator's fan-target channel.
    SendFanTarget(Fan, u16),
    /// Publish this buffer on the color broadcast, last value wins.
    PublishColors(Colors),
}

impl SocketCommand {
    /// Execute one decoded command against the shared state: the reply
    /// bytes to send back, and the effect the caller must perform.
    ///
    /// Reads reply with the literal current value and always succeed. A
    /// fan target is clamped to 100 here, before it is forwarded or echoed;
    /// set commands reply success the moment the effect is handed over,
    /// not when the hardware applies it.
    pub fn run(self, state: &SharedState) -> (r: (Vec<u8>, CommandEffect))
        requires
            self.wf(),
        ensures
            self@ is GetCoolantTemp ==> r.0@ == spec_response_bytes(
                SocketResponse::GetCoolantTemp(state.coolant_temp),
            ) && r.1 is Nothing,
            self@ is GetPumpSpeed ==> r.0@ == spec_response_bytes(
                SocketResponse::GetPumpSpeed(state.pump_speed),
            ) && r.1 is Nothing,
            self@ matches SocketCommandView::SetFanTarget(fan, speed) ==> r.0@ == seq![1u8] && (
            r.1 matches CommandEffect::SendFanTarget(f, s) && f == fan && s == if speed > 100 {
                100u16
            } else {
                speed
            }),
            self@ matches SocketCommandView::SetColors(colors) ==> r.0@ == seq![1u8] && (
            r.1 matches CommandEffect::PublishColors(c) && c@ == colors),
    {
        match self {
            SocketCommand::GetCoolantTemp => {
                let reply = SocketResponse::GetCoolantTemp(state.coolant_temp).to_bytes();
                (reply, CommandEffect::Nothing)
            },
            SocketCommand::GetPumpSpeed => {
                let reply = SocketResponse::GetPumpSpeed(state.pump_speed).to_bytes();
                (reply, CommandEffect::Nothing)
            },
            SocketCommand::SetFanTarget(fan, speed) => {
                let speed = validate_fan_speed(speed);
                let mut reply: Vec<u8> = Vec::new();
                reply.push(1);
                proof {
                    assert(reply@ =~= seq![1u8]);
                }
                (reply, CommandEffect::SendFanTarget(fan, speed))
            },
            SocketCommand::SetColors(colors) => {
                let mut reply: Vec<u8> = Vec::new();
                reply.push(1);
                proof {
                    assert(reply@ =~= seq![1u8]);
                }
                (reply, CommandEffect::PublishColors(colors))
            },
        }
    }
}

/// Decode one command from the start of a binary payload. Yields the
/// command and the number of bytes consumed exactly when the payload begins
/// with a well-formed command; a truncated or malformed payload is rejected
/// without any side effect.
pub fn socket_command_bytes(input: &[u8]) -> (r: Result<(SocketCommand, usize), Error>)
    ensures
        match spec_parse_command(input@) {
            Some(p) => r matches Ok(q) && q.0@ == p.0 && q.1 == p.1 && q.0.wf(),
            None => r == Err::<(SocketCommand, usize), Error>(Error::InvalidCommand),
        },
{
    if input.len() < 1 {
        return Err(Error::InvalidCommand);
    }
    let tag = input[0];
    if tag == SOCKET_COMMAND_GET_COOLANT_TEMP {
        Ok((SocketCommand::GetCoolantTemp, 1))
    } else if tag == SOCKET_COMMAND_GET_PUMP_SPEED {
        Ok((SocketCommand::GetPumpSpeed, 1))
    } else if tag == SOCKET_COMMAND_SET_PUMP_SPEED {
        if input.len() < 4 {
            return Err(Error::InvalidCommand);
        }
        let fan = match Fan::from_index(input[1]) {
            Ok(fan) => fan,
            Err(_) => {
                return Err(Error::InvalidCommand);
            },
        };
        let speed = input[2] as u16 + input[3] as u16 * 256;
        Ok((SocketCommand::SetFanTarget(fan, speed), 4))
    } else if tag == SOCKET_COMMAND_SET_COLORS {
        if input.len() < 1 + 3 * LED_COUNT_TOTAL {
            return Err(Error::InvalidCommand);
        }
        let mut colors: Colors = Vec::new();
        let mut i: usize = 0;
        while i < LED_COUNT_TOTAL
            invariant
                input@.len() >= 1 + 3 * LED_COUNT_TOTAL,
                i <= LED_COUNT_TOTAL,
                colors@.len() == i,
                forall|j: int|
                    0 <= j < i ==> colors@[j] == (Rgb {
                        r: input@[1 + 3 * j],
                        g: input@[2 + 3 * j],
                        b: input@[3 + 3 * j],
                    }),
            decreases LED_COUNT_TOTAL - i,
        {
            colors.push(Rgb { r: input[1 + 3 * i], g: input[2 + 3 * i], b: input[3 + 3 * i] });
            i += 1;
        }
        proof {
            let sub = input@.subrange(1, 1 + 3 * LED_COUNT_TOTAL);
            assert forall|j: int| 0 <= j < LED_COUNT_TOTAL implies colors@[j] == spec_rgb_unflat(
                sub,
            )[j] by {
                assert(sub[3 * j] == input@[1 + 3 * j]);
                assert(sub[3 * j + 1] == input@[2 + 3 * j]);
                assert(sub[3 * j + 2] == input@[3 + 3 * j]);
            }
            assert(colors@ =~= spec_rgb_unflat(sub));
        }
        Ok((SocketCommand::SetColors(colors), 1 + 3 * LED_COUNT_TOTAL))
    } else {
        Err(Error::InvalidCommand)
    }
}

/// What the textual grammar accepts on a line, over its space-separated
/// tokens: a bare read command, `set-fan-target` with a fan token and a
/// decimal target, or `set-colors` followed by one decimal triple per LED.
pub open spec fn spec_parse_text(s: Seq<char>) -> Option<SocketCommandView> {
    let toks = spec_split_ws(s);
    if toks.len() == 1 && toks[0] == "get-coolant-temp"@ {
        Some(SocketCommandView::GetCoolantTemp)
    } else if toks.len() == 1 && toks[0] == "get-pump-speed"@ {
        Some(SocketCommandView::GetPumpSpeed)
    } else if toks.len() == 3 && toks[0] == "set-fan-target"@ && Fan::is_token(toks[1])
        && spec_is_dec_bounded(toks[2], u16::MAX as int) {
        Some(
            SocketCommandView::SetFanTarget(
                Fan::spec_from_token(toks[1]),
                spec_dec_val(toks[2]) as u16,
            ),
        )
    } else if toks.len() == 1 + 3 * LED_COUNT_TOTAL && toks[0] == "set-colors"@ && (forall|i: int|
        1 <= i < toks.len() ==> spec_is_dec_bounded(#[trigger] toks[i], 255)) {
        Some(
            SocketCommandView::SetColors(
                Seq::new(
                    LED_COUNT_TOTAL as nat,
                    |i: int|
                        Rgb {
                            r: spec_dec_val(toks[1 + 3 * i]) as u8,
                            g: spec_dec_val(toks[2 + 3 * i]) as u8,
                            b: spec_dec_val(toks[3 + 3 * i]) as u8,
                        },
                ),
            ),
        )
    } else {
        None
    }
}

/// A color token that is not a bounded decimal refutes the `set-colors`
/// acceptance condition as a whole.
proof fn lemma_text_color_token_unbounded(toks: Seq<Seq<char>>, idx: int)
    requires
        1 <= idx < toks.len(),
        !spec_is_dec_bounded(toks[idx], 255) || !spec_is_dec_bounded(toks[idx], u16::MAX as int),
    ensures
        !(forall|j: int| 1 <= j < toks.len() ==> spec_is_dec_bounded(#[trigger] toks[j], 255)),
{
    assert(!spec_is_dec_bounded(toks[idx], 255));
}

/// Decode one command from a line of space-separated text, for interactive
/// use. Exactly the lines of the textual grammar are accepted; every other
/// line is rejected without partial effect.
pub fn socket_command_str(input: &str) -> (r: Result<SocketCommand, Error>)
    ensures
        match spec_parse_text(input@) {
            Some(c) => r matches Ok(x) && x@ == c && x.wf(),
            None => r == Err::<SocketCommand, Error>(Error::InvalidCommand),
        },
{
    let chars = str_chars(input);
    let toks = split_tokens(&chars);
    let ghost tv = spec_split_ws(input@);
    proof {
        assert(toks.deep_view() == tv);
        assert(tv.len() == toks@.len());
        assert forall|i: int| 0 <= i < toks@.len() implies #[trigger] toks@[i]@ == tv[i] by {
            assert(toks.deep_view()[i] == toks@[i].deep_view());
            assert(toks@[i].deep_view() =~= toks@[i]@);
        }
    }
    if toks.len() == 1 {
        if chars_eq_str(&toks[0], "get-coolant-temp") {
            Ok(SocketCommand::GetCoolantTemp)
        } else if chars_eq_str(&toks[0], "get-pump-speed") {
            Ok(SocketCommand::GetPumpSpeed)
        } else {
            Err(Error::InvalidCommand)
        }
    } else if toks.len() == 3 {
        if !chars_eq_str(&toks[0], "set-fan-target") {
            return Err(Error::InvalidCommand);
        }
        let fan = match Fan::from_chars(&toks[1]) {
            Ok(fan) => fan,
            Err(_) => {
                return Err(Error::InvalidCommand);
            },
        };
        match parse_u16_decimal(toks[2].as_slice()) {
            Some(speed) => Ok(SocketCommand::SetFanTarget(fan, speed)),
            None => Err(Error::InvalidCommand),
        }
    } else if toks.len() == 1 + 3 * LED_COUNT_TOTAL {
        if !chars_eq_str(&toks[0], "set-colors") {
            return Err(Error::InvalidCommand);
        }
        let mut colors: Colors = Vec::new();
        let mut i: usize = 0;
        while i < LED_COUNT_TOTAL
            invariant
                tv == spec_split_ws(input@),
                tv[0] == "set-colors"@,
                toks@.len() == 1 + 3 * LED_COUNT_TOTAL,
                tv.len() == 1 + 3 * LED_COUNT_TOTAL,
                forall|j: int| 0 <= j < toks@.len() ==> #[trigger] toks@[j]@ == tv[j],
                i <= LED_COUNT_TOTAL,
                colors@.len() == i,
                forall|j: int|
                    1 <= j < 1 + 3 * i ==> spec_is_dec_bounded(#[trigger] tv[j], 255),
                forall|j: int|
                    0 <= j < i ==> colors@[j] == (Rgb {
                        r: spec_dec_val(tv[1 + 3 * j]) as u8,
                        g: spec_dec_val(tv[2 + 3 * j]) as u8,
                        b: spec_dec_val(tv[3 + 3 * j]) as u8,
                    }),
            decreases LED_COUNT_TOTAL - i,
        {
            let rv = match parse_u16_decimal(toks[1 + 3 * i].as_slice()) {
                Some(v) => v,
                None => {
                    proof {
                        let idx = 1 + 3 * (i as int);
                        assert(toks@[idx]@ == tv[idx]);
                        lemma_text_color_token_unbounded(tv, idx);
                    }
                    return Err(Error::InvalidCommand);
                },
            };
            let gv = match parse_u16_decimal(toks[2 + 3 * i].as_slice()) {
                Some(v) => v,
                None => {
                    proof {
                        let idx = 2 + 3 * (i as int);
                        assert(toks@[idx]@ == tv[idx]);
                        lemma_text_color_token_unbounded(tv, idx);
                    }
                    return Err(Error::InvalidCommand);
                },
            };
            let bv = match parse_u16_decimal(toks[3 + 3 * i].as_slice()) {
                Some(v) => v,
                None => {
                    proof {
                        let idx = 3 + 3 * (i as int);
                        assert(toks@[idx]@ == tv[idx]);
                        lemma_text_color_token_unbounded(tv, idx);
                    }
                    return Err(Error::InvalidCommand);
                },
            };
            proof {
                let j = i as int;
                if spec_is_dec_bounded(tv[1 + 3 * j], u16::MAX as int) {
                    lemma_dec_val_nonneg(tv[1 + 3 * j]);
                }
                if spec_is_dec_bounded(tv[2 + 3 * j], u16::MAX as int) {
                    lemma_dec_val_nonneg(tv[2 + 3 * j]);
                }
                if spec_is_dec_bounded(tv[3 + 3 * j], u16::MAX as int) {
                    lemma_dec_val_nonneg(tv[3 + 3 * j]);
                }
            }
            if rv > 255 || gv > 255 || bv > 255 {
                proof {
                    let j = i as int;
                    assert(toks@[1 + 3 * j]@ == tv[1 + 3 * j]);
                    assert(toks@[2 + 3 * j]@ == tv[2 + 3 * j]);
                    assert(toks@[3 + 3 * j]@ == tv[3 + 3 * j]);
                    if rv > 255 {
                        lemma_text_color_token_unbounded(tv, 1 + 3 * j);
                    } else if gv > 255 {
                        lemma_text_color_token_unbounded(tv, 2 + 3 * j);
                    } else {
                        lemma_text_color_token_unbounded(tv, 3 + 3 * j);
                    }
                }
                return Err(Error::InvalidCommand);
            }
            colors.push(Rgb { r: rv as u8, g: gv as u8, b: bv as u8 });
            i += 1;
        }
        proof {
            assert forall|j: int| 1 <= j < tv.len() implies spec_is_dec_bounded(
                #[trigger] tv[j],
                255,
            ) by {
                assert(1 <= j < 1 + 3 * (LED_COUNT_TOTAL as int));
            }
            let model = Seq::new(
                LED_COUNT_TOTAL as nat,
                |j: int|
                    Rgb {
                        r: spec_dec_val(tv[1 + 3 * j]) as u8,
                        g: spec_dec_val(tv[2 + 3 * j]) as u8,
                        b: spec_dec_val(tv[3 + 3 * j]) as u8,
                    },
            );
            assert(colors@ =~= model);
        }
        Ok(SocketCommand::SetColors(colors))
    } else {
        Err(Error::InvalidCommand)
    }
}

} // verus!
