//! The text records that the controller sends over the control channel.
//!
//! A record is four fields separated by ASCII whitespace: the timestamp in
//! decimal digits, then three flags, each the single byte `0` or `1`:
//! real time, move forward, reset base. Whitespace may stand before a record.
//! A record ends with its third flag, so records need nothing between them
//! and the end of one is known without looking further.

use vstd::prelude::*;

verus! {

/// One update as the controller states it.
#[derive(Clone, Copy, Debug, PartialEq, Eq, Structural)]
pub struct ControlMessage {
    /// The instant to report when frozen, and the anchor when moving forward.
    pub timestamp: u64,
    /// Report the real clock unchanged.
    pub real_time: bool,
    /// Report `timestamp` plus the real time elapsed since the base.
    pub move_forward: bool,
    /// Set the base to the real clock's reading before the rest is applied.
    pub reset_base: bool,
}

/// Space, tab, line feed, form feed and carriage return separate fields.
pub open spec fn is_space(b: u8) -> bool {
    b == 0x20 || b == 0x09 || b == 0x0a || b == 0x0c || b == 0x0d
}

/// The ASCII digits `0` to `9`.
pub open spec fn is_digit(b: u8) -> bool {
    0x30 <= b <= 0x39
}

/// A flag field is the byte `0` or the byte `1`.
pub open spec fn is_flag(b: u8) -> bool {
    b == 0x30 || b == 0x31
}

/// The first position at or after `from` that holds no whitespace, which is
/// the length of `s` where only whitespace follows.
pub open spec fn spaces_end(s: Seq<u8>, from: int) -> int
    decreases s.len() - from,
{
    if 0 <= from < s.len() && is_space(s[from]) {
        spaces_end(s, from + 1)
    } else {
        from
    }
}

/// The first position at or after `from` that holds no digit, which is the
/// length of `s` where only digits follow.
pub open spec fn digits_end(s: Seq<u8>, from: int) -> int
    decreases s.len() - from,
{
    if 0 <= from < s.len() && is_digit(s[from]) {
        digits_end(s, from + 1)
    } else {
        from
    }
}

/// The number that a string of digits writes in base ten.
pub open spec fn decimal(digits: Seq<u8>) -> nat
    decreases digits.len(),
{
    if digits.len() == 0 {
        0
    } else {
        decimal(digits.drop_last()) * 10 + (digits.last() - 0x30) as nat
    }
}

/// Where the flag stands that follows a field ending just before `from`.
pub enum Seek {
    /// Whitespace follows the field, and then a flag at this position.
    At(int),
    /// The bytes end before the flag is reached.
    Short,
    /// Something else than whitespace and a flag follows the field.
    Bad,
}

/// Looks for the flag that follows a field ending just before `from`: at
/// least one byte of whitespace, then the flag.
pub open spec fn flag_after(s: Seq<u8>, from: int) -> Seek {
    let at = spaces_end(s, from);
    if from >= s.len() {
        Seek::Short
    } else if at == from {
        Seek::Bad
    } else if at >= s.len() {
        Seek::Short
    } else if is_flag(s[at]) {
        Seek::At(at)
    } else {
        Seek::Bad
    }
}

/// What stands at the front of a stream of bytes.
pub enum Framing {
    /// A whole record that takes up the first `len` bytes.
    Record { message: ControlMessage, len: nat },
    /// The beginning of a record, of which more bytes have to arrive.
    Partial,
    /// Bytes with which no record begins.
    Malformed,
}

/// Reads the front of `s` as a record.
pub open spec fn framing(s: Seq<u8>) -> Framing {
    let a = spaces_end(s, 0);
    let b = digits_end(s, a);
    let timestamp = decimal(s.subrange(a, b));
    if a >= s.len() {
        Framing::Partial
    } else if b == a || timestamp > u64::MAX {
        Framing::Malformed
    } else {
        match flag_after(s, b) {
            Seek::Short => Framing::Partial,
            Seek::Bad => Framing::Malformed,
            Seek::At(c) => match flag_after(s, c + 1) {
                Seek::Short => Framing::Partial,
                Seek::Bad => Framing::Malformed,
                Seek::At(d) => match flag_after(s, d + 1) {
                    Seek::Short => Framing::Partial,
                    Seek::Bad => Framing::Malformed,
                    Seek::At(e) => Framing::Record {
                        message: ControlMessage {
                            timestamp: timestamp as u64,
                            real_time: s[c] == 0x31,
                            move_forward: s[d] == 0x31,
                            reset_base: s[e] == 0x31,
                        },
                        len: (e + 1) as nat,
                    },
                },
            },
        }
    }
}

/// A run of whitespace that starts inside `s` ends inside `s` or at its end.
pub proof fn lemma_spaces_end_bounds(s: Seq<u8>, from: int)
    requires
        0 <= from <= s.len(),
    ensures
        from <= spaces_end(s, from) <= s.len(),
    decreases s.len() - from,
{
    if from < s.len() && is_space(s[from]) {
        lemma_spaces_end_bounds(s, from + 1);
    }
}

/// A run of digits that starts inside `s` ends inside `s` or at its end.
pub proof fn lemma_digits_end_bounds(s: Seq<u8>, from: int)
    requires
        0 <= from <= s.len(),
    ensures
        from <= digits_end(s, from) <= s.len(),
    decreases s.len() - from,
{
    if from < s.len() && is_digit(s[from]) {
        lemma_digits_end_bounds(s, from + 1);
    }
}

/// A record lies within the bytes it was read from and is at least seven
/// bytes long: a digit, three flags, and three separators.
pub proof fn lemma_record_bounds(s: Seq<u8>)
    ensures
        framing(s) matches Framing::Record { len, .. } ==> 7 <= len <= s.len(),
{
    lemma_spaces_end_bounds(s, 0);
    let a = spaces_end(s, 0);
    lemma_digits_end_bounds(s, a);
    let b = digits_end(s, a);
    if b < s.len() {
        lemma_spaces_end_bounds(s, b);
        if let Seek::At(c) = flag_after(s, b) {
            lemma_spaces_end_bounds(s, c + 1);
            if let Seek::At(d) = flag_after(s, c + 1) {
                lemma_spaces_end_bounds(s, d + 1);
            }
        }
    }
}

/// The result of reading the front of a buffer.
#[derive(Clone, Copy, Debug, PartialEq, Eq)]
pub enum Scan {
    /// A whole record stands in the first `used` bytes.
    Complete { message: ControlMessage, used: usize },
    /// The buffer holds the beginning of a record.
    Incomplete,
    /// No record begins with what the buffer holds.
    Malformed,
}

impl View for Scan {
    type V = Framing;

    open spec fn view(&self) -> Framing {
        match *self {
            Scan::Complete { message, used } => Framing::Record { message, len: used as nat },
            Scan::Incomplete => Framing::Partial,
            Scan::Malformed => Framing::Malformed,
        }
    }
}

fn space_byte(b: u8) -> (yes: bool)
    ensures
        yes == is_space(b),
{
    b == 0x20 || b == 0x09 || b == 0x0a || b == 0x0c || b == 0x0d
}

fn digit_byte(b: u8) -> (yes: bool)
    ensures
        yes == is_digit(b),
{
    0x30 <= b && b <= 0x39
}

fn skip_spaces(buf: &[u8], from: usize) -> (to: usize)
    requires
        from <= buf@.len(),
    ensures
        to == spaces_end(buf@, from as int),
        from <= to <= buf@.len(),
{
    let mut i: usize = from;
    while i < buf.len() && space_byte(buf[i])
        invariant
            from <= i <= buf@.len(),
            spaces_end(buf@, from as int) == spaces_end(buf@, i as int),
        decreases buf@.len() - i,
    {
        i += 1;
    }
    i
}

/// Reads the digits that start at `from`: where they end, and the number
/// they write if a `u64` holds it.
fn read_digits(buf: &[u8], from: usize) -> (r: (usize, Option<u64>))
    requires
        from <= buf@.len(),
    ensures
        r.0 == digits_end(buf@, from as int),
        from <= r.0 <= buf@.len(),
        match r.1 {
            Some(n) => n == decimal(buf@.subrange(from as int, r.0 as int)),
            None => decimal(buf@.subrange(from as int, r.0 as int)) > u64::MAX,
        },
{
    let mut i: usize = from;
    let mut value: Option<u64> = Some(0);
    while i < buf.len() && digit_byte(buf[i])
        invariant
            from <= i <= buf@.len(),
            digits_end(buf@, from as int) == digits_end(buf@, i as int),
            match value {
                Some(n) => n == decimal(buf@.subrange(from as int, i as int)),
                None => decimal(buf@.subrange(from as int, i as int)) > u64::MAX,
            },
        decreases buf@.len() - i,
    {
        let digit: u64 = (buf[i] - 0x30) as u64;
        proof {
            let longer = buf@.subrange(from as int, i + 1);
            assert(longer.drop_last() =~= buf@.subrange(from as int, i as int));
            assert(longer.last() == buf@[i as int]);
        }
        value = match value {
            Some(n) => match n.checked_mul(10) {
                Some(tens) => tens.checked_add(digit),
                None => None,
            },
            None => None,
        };
        i += 1;
    }
    (i, value)
}

/// Looks for the flag that follows a field ending just before `from`.
fn seek_flag(buf: &[u8], from: usize) -> (r: Result<usize, Scan>)
    requires
        from <= buf@.len(),
    ensures
        match r {
            Ok(at) => flag_after(buf@, from as int) == Seek::At(at as int) && at < buf@.len(),
            Err(Scan::Incomplete) => flag_after(buf@, from as int) == Seek::Short,
            Err(Scan::Malformed) => flag_after(buf@, from as int) == Seek::Bad,
            Err(Scan::Complete { .. }) => false,
        },
{
    if from >= buf.len() {
        return Err(Scan::Incomplete);
    }
    let at = skip_spaces(buf, from);
    if at == from {
        Err(Scan::Malformed)
    } else if at >= buf.len() {
        Err(Scan::Incomplete)
    } else if buf[at] == 0x30 || buf[at] == 0x31 {
        Ok(at)
    } else {
        Err(Scan::Malformed)
    }
}

/// Reads the front of `buf` as a record.
///
/// A whole record is returned with the number of bytes it takes up. Bytes
/// after it are not looked at. Where the buffer ends inside a record the
/// answer is `Incomplete`, and where no record can begin with the bytes it
/// holds, `Malformed`.
pub fn scan(buf: &[u8]) -> (r: Scan)
    ensures
        r@ == framing(buf@),
{
    let a = skip_spaces(buf, 0);
    if a >= buf.len() {
        return Scan::Incomplete;
    }
    let (b, value) = read_digits(buf, a);
    if b == a {
        return Scan::Malformed;
    }
    let timestamp = match value {
        Some(n) => n,
        None => {
            return Scan::Malformed;
        },
    };
    let c = match seek_flag(buf, b) {
        Ok(at) => at,
        Err(stop) => {
            return stop;
        },
    };
    let d = match seek_flag(buf, c + 1) {
        Ok(at) => at,
        Err(stop) => {
            return stop;
        },
    };
    let e = match seek_flag(buf, d + 1) {
        Ok(at) => at,
        Err(stop) => {
            return stop;
        },
    };
    Scan::Complete {
        message: ControlMessage {
            timestamp,
            real_time: buf[c] == 0x31,
            move_forward: buf[d] == 0x31,
            reset_base: buf[e] == 0x31,
        },
        used: e + 1,
    }
}

/// The digits that write `n` in base ten, without leading zeros.
pub open spec fn digits_of(n: nat) -> Seq<u8>
    decreases n,
{
    if n < 10 {
        seq![(0x30 + n) as u8]
    } else {
        digits_of(n / 10).push((0x30 + n % 10) as u8)
    }
}

/// The byte that writes a flag: `1` for set, `0` for clear.
pub open spec fn flag_byte(set: bool) -> u8 {
    if set {
        0x31
    } else {
        0x30
    }
}

/// The record that states `message`: its timestamp without leading zeros and
/// its three flags, with one space between fields and nothing around them.
pub open spec fn encoding(message: ControlMessage) -> Seq<u8> {
    digits_of(message.timestamp as nat) + seq![
        0x20u8,
        flag_byte(message.real_time),
        0x20u8,
        flag_byte(message.move_forward),
        0x20u8,
        flag_byte(message.reset_base),
    ]
}

/// The word that an acknowledgement uses for a flag: `true` or `false`.
pub open spec fn flag_word(set: bool) -> Seq<u8> {
    if set {
        seq![0x74u8, 0x72u8, 0x75u8, 0x65u8]
    } else {
        seq![0x66u8, 0x61u8, 0x6cu8, 0x73u8, 0x65u8]
    }
}

/// `text` between double quotes.
pub open spec fn quoted(text: Seq<u8>) -> Seq<u8> {
    seq![0x22u8] + text + seq![0x22u8]
}

/// The first part of an acknowledgement: the four fields as they were read,
/// as a bracketed list of quoted strings with a comma and a space between
/// them.
pub open spec fn echo_fields(message: ControlMessage) -> Seq<u8> {
    seq![0x5bu8] + quoted(digits_of(message.timestamp as nat)) + seq![0x2cu8, 0x20u8] + quoted(
        seq![flag_byte(message.real_time)],
    ) + seq![0x2cu8, 0x20u8] + quoted(seq![flag_byte(message.move_forward)]) + seq![
        0x2cu8,
        0x20u8,
    ] + quoted(seq![flag_byte(message.reset_base)]) + seq![0x5du8]
}

/// The second part of an acknowledgement: the four values that the fields
/// were taken for, with a space between them.
pub open spec fn echo_values(message: ControlMessage) -> Seq<u8> {
    digits_of(message.timestamp as nat) + seq![0x20u8] + flag_word(message.real_time) + seq![
        0x20u8,
    ] + flag_word(message.move_forward) + seq![0x20u8] + flag_word(message.reset_base)
}

/// The text of the acknowledgement of `message`: fields, a space, values.
/// For the timestamp 100 with no flag set it reads
/// `["100", "0", "0", "0"] 100 false false false`.
pub open spec fn echo_text(message: ControlMessage) -> Seq<u8> {
    echo_fields(message) + seq![0x20u8] + echo_values(message)
}

/// Appends the digits of `n` to `out`.
fn push_decimal(out: &mut Vec<u8>, n: u64)
    ensures
        final(out)@ == old(out)@ + digits_of(n as nat),
    decreases n,
{
    if n >= 10 {
        push_decimal(out, n / 10);
    }
    let digit: u8 = (n % 10) as u8;
    out.push(0x30 + digit);
    assert(final(out)@ =~= old(out)@ + digits_of(n as nat));
}

/// One byte.
fn one(a: u8) -> (bytes: Vec<u8>)
    ensures
        bytes@ == seq![a],
{
    let mut bytes: Vec<u8> = Vec::new();
    bytes.push(a);
    assert(bytes@ =~= seq![a]);
    bytes
}

/// Two bytes.
fn two(a: u8, b: u8) -> (bytes: Vec<u8>)
    ensures
        bytes@ == seq![a, b],
{
    let mut bytes: Vec<u8> = Vec::new();
    bytes.push(a);
    bytes.push(b);
    assert(bytes@ =~= seq![a, b]);
    bytes
}

/// `front` followed by `back`.
fn join(front: Vec<u8>, back: Vec<u8>) -> (all: Vec<u8>)
    ensures
        all@ == front@ + back@,
{
    let mut all = front;
    let mut back = back;
    all.append(&mut back);
    all
}

/// The digits of `n`.
fn decimal_text(n: u64) -> (bytes: Vec<u8>)
    ensures
        bytes@ == digits_of(n as nat),
{
    let mut bytes: Vec<u8> = Vec::new();
    push_decimal(&mut bytes, n);
    assert(bytes@ =~= digits_of(n as nat));
    bytes
}

/// The byte that writes a flag, as a field of its own.
fn flag_text(set: bool) -> (bytes: Vec<u8>)
    ensures
        bytes@ == seq![flag_byte(set)],
{
    one(if set { 0x31 } else { 0x30 })
}

/// `true` or `false`.
fn flag_word_text(set: bool) -> (bytes: Vec<u8>)
    ensures
        bytes@ == flag_word(set),
{
    let mut bytes: Vec<u8> = Vec::new();
    if set {
        bytes.push(0x74);
        bytes.push(0x72);
        bytes.push(0x75);
        bytes.push(0x65);
    } else {
        bytes.push(0x66);
        bytes.push(0x61);
        bytes.push(0x6c);
        bytes.push(0x73);
        bytes.push(0x65);
    }
    assert(bytes@ =~= flag_word(set));
    bytes
}

/// `text` between double quotes.
fn quoted_text(text: Vec<u8>) -> (bytes: Vec<u8>)
    ensures
        bytes@ == quoted(text@),
{
    join(join(one(0x22), text), one(0x22))
}

/// The first part of an acknowledgement.
fn echo_fields_text(message: &ControlMessage) -> (bytes: Vec<u8>)
    ensures
        bytes@ == echo_fields(*message),
{
    let out = join(one(0x5b), quoted_text(decimal_text(message.timestamp)));
    let out = join(out, two(0x2c, 0x20));
    let out = join(out, quoted_text(flag_text(message.real_time)));
    let out = join(out, two(0x2c, 0x20));
    let out = join(out, quoted_text(flag_text(message.move_forward)));
    let out = join(out, two(0x2c, 0x20));
    let out = join(out, quoted_text(flag_text(message.reset_base)));
    join(out, one(0x5d))
}

/// The second part of an acknowledgement.
fn echo_values_text(message: &ControlMessage) -> (bytes: Vec<u8>)
    ensures
        bytes@ == echo_values(*message),
{
    let out = join(decimal_text(message.timestamp), one(0x20));
    let out = join(out, flag_word_text(message.real_time));
    let out = join(out, one(0x20));
    let out = join(out, flag_word_text(message.move_forward));
    let out = join(out, one(0x20));
    join(out, flag_word_text(message.reset_base))
}

impl ControlMessage {
    /// The record that states this message, as the controller sends it.
    pub fn encode(&self) -> (bytes: Vec<u8>)
        ensures
            bytes@ == encoding(*self),
    {
        let mut out = decimal_text(self.timestamp);
        out.push(0x20);
        out.push(if self.real_time { 0x31 } else { 0x30 });
        out.push(0x20);
        out.push(if self.move_forward { 0x31 } else { 0x30 });
        out.push(0x20);
        out.push(if self.reset_base { 0x31 } else { 0x30 });
        assert(out@ =~= encoding(*self));
        out
    }

    /// The acknowledgement that the agent sends back once it has applied
    /// this message.
    pub fn echo(&self) -> (bytes: Vec<u8>)
        ensures
            bytes@ == echo_text(*self),
    {
        join(join(echo_fields_text(self), one(0x20)), echo_values_text(self))
    }
}

/// A stretch of whitespace that is followed by another byte, or by the end
/// of `s`, is the run of whitespace that starts where the stretch starts.
pub proof fn lemma_spaces_end_is(s: Seq<u8>, from: int, to: int)
    requires
        0 <= from <= to <= s.len(),
        forall|i: int| from <= i < to ==> is_space(#[trigger] s[i]),
        to == s.len() || !is_space(s[to]),
    ensures
        spaces_end(s, from) == to,
    decreases to - from,
{
    if from < to {
        lemma_spaces_end_is(s, from + 1, to);
    }
}

/// A stretch of digits that is followed by another byte, or by the end of
/// `s`, is the run of digits that starts where the stretch starts.
pub proof fn lemma_digits_end_is(s: Seq<u8>, from: int, to: int)
    requires
        0 <= from <= to <= s.len(),
        forall|i: int| from <= i < to ==> is_digit(#[trigger] s[i]),
        to == s.len() || !is_digit(s[to]),
    ensures
        digits_end(s, from) == to,
    decreases to - from,
{
    if from < to {
        lemma_digits_end_is(s, from + 1, to);
    }
}

/// Every byte of a run of whitespace is whitespace.
pub proof fn lemma_spaces_run(s: Seq<u8>, from: int)
    requires
        0 <= from <= s.len(),
    ensures
        forall|i: int| from <= i < spaces_end(s, from) ==> is_space(#[trigger] s[i]),
        spaces_end(s, from) == s.len() || !is_space(s[spaces_end(s, from)]),
    decreases s.len() - from,
{
    if from < s.len() && is_space(s[from]) {
        lemma_spaces_run(s, from + 1);
    }
}

/// Every byte of a run of digits is a digit.
pub proof fn lemma_digits_run(s: Seq<u8>, from: int)
    requires
        0 <= from <= s.len(),
    ensures
        forall|i: int| from <= i < digits_end(s, from) ==> is_digit(#[trigger] s[i]),
        digits_end(s, from) == s.len() || !is_digit(s[digits_end(s, from)]),
    decreases s.len() - from,
{
    if from < s.len() && is_digit(s[from]) {
        lemma_digits_run(s, from + 1);
    }
}

/// The digits of a number are digits, at least one of them, and write that
/// number.
pub proof fn lemma_digits_of(n: nat)
    ensures
        digits_of(n).len() >= 1,
        forall|i: int| 0 <= i < digits_of(n).len() ==> is_digit(#[trigger] digits_of(n)[i]),
        decimal(digits_of(n)) == n,
    decreases n,
{
    if n < 10 {
        let text = digits_of(n);
        assert(text.drop_last() =~= Seq::<u8>::empty());
        assert(decimal(text.drop_last()) == 0);
    } else {
        lemma_digits_of(n / 10);
        let text = digits_of(n);
        assert(text.drop_last() =~= digits_of(n / 10));
    }
}

/// Adding digits to a number's end does not make it smaller.
pub proof fn lemma_decimal_grows(digits: Seq<u8>, k: int)
    requires
        0 <= k <= digits.len(),
    ensures
        decimal(digits.take(k)) <= decimal(digits),
    decreases digits.len() - k,
{
    if k == digits.len() {
        assert(digits.take(k) =~= digits);
    } else {
        lemma_decimal_grows(digits.drop_last(), k);
        assert(digits.drop_last().take(k) =~= digits.take(k));
    }
}

/// Reading what the controller writes gives back what it stated: the
/// encoding of a message, whatever follows it, is read as that message, and
/// as taking up exactly the bytes of the encoding.
pub proof fn lemma_encoding_round_trip(message: ControlMessage, following: Seq<u8>)
    ensures
        framing(encoding(message) + following) == (Framing::Record {
            message,
            len: encoding(message).len(),
        }),
{
    let number = digits_of(message.timestamp as nat);
    let k = number.len() as int;
    let s = encoding(message) + following;
    lemma_digits_of(message.timestamp as nat);
    assert forall|i: int| 0 <= i < k implies is_digit(#[trigger] s[i]) by {
        assert(s[i] == number[i]);
    }
    assert(s[k] == 0x20);
    assert(s[k + 1] == flag_byte(message.real_time));
    assert(s[k + 2] == 0x20);
    assert(s[k + 3] == flag_byte(message.move_forward));
    assert(s[k + 4] == 0x20);
    assert(s[k + 5] == flag_byte(message.reset_base));
    lemma_spaces_end_is(s, 0, 0);
    lemma_digits_end_is(s, 0, k);
    assert(s.subrange(0, k) =~= number);
    lemma_spaces_end_is(s, k, k + 1);
    lemma_spaces_end_is(s, k + 2, k + 3);
    lemma_spaces_end_is(s, k + 4, k + 5);
}

/// Bytes that arrive later do not change a run of whitespace that has ended,
/// and can only lengthen one that reaches the end of what is there.
pub proof fn lemma_spaces_end_extend(s: Seq<u8>, later: Seq<u8>, from: int)
    requires
        0 <= from <= s.len(),
    ensures
        spaces_end(s, from) < s.len() ==> spaces_end(s + later, from) == spaces_end(s, from),
        spaces_end(s, from) >= s.len() ==> spaces_end(s + later, from) >= s.len(),
    decreases s.len() - from,
{
    lemma_spaces_end_bounds(s + later, from);
    if from < s.len() {
        assert((s + later)[from] == s[from]);
        if is_space(s[from]) {
            lemma_spaces_end_extend(s, later, from + 1);
        }
    }
}

/// Bytes that arrive later do not change a run of digits that has ended, and
/// can only lengthen one that reaches the end of what is there.
pub proof fn lemma_digits_end_extend(s: Seq<u8>, later: Seq<u8>, from: int)
    requires
        0 <= from <= s.len(),
    ensures
        digits_end(s, from) < s.len() ==> digits_end(s + later, from) == digits_end(s, from),
        digits_end(s, from) >= s.len() ==> digits_end(s + later, from) >= s.len(),
    decreases s.len() - from,
{
    lemma_digits_end_bounds(s + later, from);
    if from < s.len() {
        assert((s + later)[from] == s[from]);
        if is_digit(s[from]) {
            lemma_digits_end_extend(s, later, from + 1);
        }
    }
}

/// Bytes that arrive later do not change where a flag was found, nor that
/// none can stand where one was looked for.
pub proof fn lemma_flag_after_extend(s: Seq<u8>, later: Seq<u8>, from: int)
    requires
        0 <= from <= s.len(),
    ensures
        flag_after(s, from) != Seek::Short ==> flag_after(s + later, from) == flag_after(s, from),
        flag_after(s, from) matches Seek::At(at) ==> from < at < s.len(),
{
    lemma_spaces_end_bounds(s, from);
    lemma_spaces_end_extend(s, later, from);
    let at = spaces_end(s, from);
    if at < s.len() {
        assert((s + later)[at] == s[at]);
    }
}

/// A record that has arrived whole is read the same whatever arrives after
/// it.
pub proof fn lemma_record_is_settled(s: Seq<u8>, later: Seq<u8>)
    requires
        framing(s) is Record,
    ensures
        framing(s + later) == framing(s),
{
    let a = spaces_end(s, 0);
    let b = digits_end(s, a);
    lemma_spaces_end_bounds(s, 0);
    lemma_spaces_end_extend(s, later, 0);
    lemma_digits_end_bounds(s, a);
    lemma_digits_end_extend(s, later, a);
    lemma_flag_after_extend(s, later, b);
    let c = flag_after(s, b)->At_0;
    lemma_flag_after_extend(s, later, c + 1);
    let d = flag_after(s, c + 1)->At_0;
    lemma_flag_after_extend(s, later, d + 1);
    let e = flag_after(s, d + 1)->At_0;
    assert((s + later).subrange(a, b) =~= s.subrange(a, b));
    assert((s + later)[c] == s[c]);
    assert((s + later)[d] == s[d]);
    assert((s + later)[e] == s[e]);
}

/// Bytes with which no record begins stay so whatever arrives after them:
/// nothing is lost by dropping them.
pub proof fn lemma_malformed_is_final(s: Seq<u8>, later: Seq<u8>)
    requires
        framing(s) is Malformed,
    ensures
        framing(s + later) is Malformed,
{
    let all = s + later;
    let a = spaces_end(s, 0);
    let b = digits_end(s, a);
    lemma_spaces_end_bounds(s, 0);
    lemma_spaces_end_extend(s, later, 0);
    lemma_digits_end_bounds(s, a);
    lemma_digits_end_extend(s, later, a);
    assert(all[a] == s[a]);
    let far = digits_end(all, a);
    lemma_digits_end_bounds(all, a);
    if b == a {
    } else if decimal(s.subrange(a, b)) > u64::MAX {
        lemma_decimal_grows(all.subrange(a, far), b - a);
        assert(all.subrange(a, far).take(b - a) =~= s.subrange(a, b));
    } else {
        assert(all.subrange(a, b) =~= s.subrange(a, b));
        lemma_flag_after_extend(s, later, b);
        if let Seek::At(c) = flag_after(s, b) {
            lemma_flag_after_extend(s, later, c + 1);
            if let Seek::At(d) = flag_after(s, c + 1) {
                lemma_flag_after_extend(s, later, d + 1);
            }
        }
    }
}

/// The layout of a record at the front of `s`: whitespace up to `a`, the
/// digits of the timestamp from `a` up to `b`, then the three flags at `c`,
/// `d` and `e`, each with at least one byte of whitespace before it and
/// nothing else.
pub open spec fn laid_out(s: Seq<u8>, a: int, b: int, c: int, d: int, e: int) -> bool {
    &&& 0 <= a < b < c < d < e < s.len()
    &&& c + 1 < d
    &&& d + 1 < e
    &&& forall|i: int| 0 <= i < a ==> is_space(#[trigger] s[i])
    &&& forall|i: int| a <= i < b ==> is_digit(#[trigger] s[i])
    &&& forall|i: int| b <= i < c ==> is_space(#[trigger] s[i])
    &&& is_flag(s[c])
    &&& forall|i: int| c < i < d ==> is_space(#[trigger] s[i])
    &&& is_flag(s[d])
    &&& forall|i: int| d < i < e ==> is_space(#[trigger] s[i])
    &&& is_flag(s[e])
}

/// Bytes laid out as a record, with a timestamp that a `u64` holds, are read
/// as that record, which ends with its third flag.
pub proof fn lemma_layout_is_read(s: Seq<u8>, a: int, b: int, c: int, d: int, e: int)
    requires
        laid_out(s, a, b, c, d, e),
        decimal(s.subrange(a, b)) <= u64::MAX,
    ensures
        framing(s) == (Framing::Record {
            message: ControlMessage {
                timestamp: decimal(s.subrange(a, b)) as u64,
                real_time: s[c] == 0x31,
                move_forward: s[d] == 0x31,
                reset_base: s[e] == 0x31,
            },
            len: (e + 1) as nat,
        }),
{
    lemma_spaces_end_is(s, 0, a);
    lemma_digits_end_is(s, a, b);
    lemma_spaces_end_is(s, b, c);
    lemma_spaces_end_is(s, c + 1, d);
    lemma_spaces_end_is(s, d + 1, e);
}

/// Whatever is read as a record is laid out as one, and the message holds
/// what its fields write.
pub proof fn lemma_read_is_laid_out(s: Seq<u8>)
    requires
        framing(s) is Record,
    ensures
        exists|a: int, b: int, c: int, d: int|
            {
                &&& #[trigger] laid_out(s, a, b, c, d, framing(s)->len - 1)
                &&& framing(s)->message.timestamp == decimal(s.subrange(a, b))
                &&& framing(s)->message.real_time == (s[c] == 0x31)
                &&& framing(s)->message.move_forward == (s[d] == 0x31)
                &&& framing(s)->message.reset_base == (s[framing(s)->len - 1] == 0x31)
            },
{
    let a = spaces_end(s, 0);
    let b = digits_end(s, a);
    lemma_spaces_end_bounds(s, 0);
    lemma_spaces_run(s, 0);
    lemma_digits_end_bounds(s, a);
    lemma_digits_run(s, a);
    let c = flag_after(s, b)->At_0;
    lemma_spaces_end_bounds(s, b);
    lemma_spaces_run(s, b);
    let d = flag_after(s, c + 1)->At_0;
    lemma_spaces_end_bounds(s, c + 1);
    lemma_spaces_run(s, c + 1);
    let e = flag_after(s, d + 1)->At_0;
    lemma_spaces_end_bounds(s, d + 1);
    lemma_spaces_run(s, d + 1);
    assert(e == framing(s)->len - 1);
    assert(laid_out(s, a, b, c, d, framing(s)->len - 1));
}

/// The bytes that lead from a field ending just before `from`, after which
/// `s` ends before the next flag, to the end of that flag: the flag `0`,
/// with a space before it where `s` ends with the field.
spec fn bridge(s: Seq<u8>, from: int) -> Seq<u8> {
    if from >= s.len() {
        seq![0x20u8, 0x30u8]
    } else {
        seq![0x30u8]
    }
}

/// The front of a record up to the end of its timestamp: whitespace up to
/// `a`, then digits up to `b`, which write a number that a `u64` holds.
spec fn timestamp_laid_out(s: Seq<u8>, a: int, b: int) -> bool {
    &&& 0 <= a < b <= s.len()
    &&& forall|i: int| 0 <= i < a ==> is_space(#[trigger] s[i])
    &&& forall|i: int| a <= i < b ==> is_digit(#[trigger] s[i])
    &&& decimal(s.subrange(a, b)) <= u64::MAX
}

/// Whitespace alone is completed by a whole record.
proof fn lemma_complete_blank(s: Seq<u8>, later: Seq<u8>)
    requires
        forall|i: int| 0 <= i < s.len() ==> is_space(#[trigger] s[i]),
        later == seq![0x30u8, 0x20u8, 0x30u8, 0x20u8, 0x30u8, 0x20u8, 0x30u8],
    ensures
        framing(s + later) is Record,
{
    let n = s.len() as int;
    let all = s + later;
    assert(all.subrange(n, n + 1) =~= seq![0x30u8]);
    assert(seq![0x30u8].drop_last() =~= Seq::<u8>::empty());
    assert(decimal(seq![0x30u8]) == 0) by {
        reveal_with_fuel(decimal, 2);
    }
    assert forall|i: int| 0 <= i < n implies is_space(#[trigger] all[i]) by {
        assert(all[i] == s[i]);
    }
    assert(laid_out(all, n, n + 1, n + 2, n + 4, n + 6));
    lemma_layout_is_read(all, n, n + 1, n + 2, n + 4, n + 6);
}

/// A timestamp at the end of what is there is completed by three flags.
proof fn lemma_complete_timestamp(s: Seq<u8>, a: int, later: Seq<u8>)
    requires
        timestamp_laid_out(s, a, s.len() as int),
        later == seq![0x20u8, 0x30u8, 0x20u8, 0x30u8, 0x20u8, 0x30u8],
    ensures
        framing(s + later) is Record,
{
    let n = s.len() as int;
    let all = s + later;
    assert(all.subrange(a, n) =~= s.subrange(a, n));
    assert forall|i: int| 0 <= i < n implies all[i] == s[i] by {}
    assert(laid_out(all, a, n, n + 1, n + 3, n + 5));
    lemma_layout_is_read(all, a, n, n + 1, n + 3, n + 5);
}

/// What ends in the whitespace after the timestamp is completed by three
/// flags.
proof fn lemma_complete_first_gap(s: Seq<u8>, a: int, b: int, later: Seq<u8>)
    requires
        timestamp_laid_out(s, a, b),
        b < s.len(),
        forall|i: int| b <= i < s.len() ==> is_space(#[trigger] s[i]),
        later == seq![0x30u8, 0x20u8, 0x30u8, 0x20u8, 0x30u8],
    ensures
        framing(s + later) is Record,
{
    let n = s.len() as int;
    let all = s + later;
    assert(all.subrange(a, b) =~= s.subrange(a, b));
    assert forall|i: int| 0 <= i < n implies all[i] == s[i] by {}
    assert(laid_out(all, a, b, n, n + 2, n + 4));
    lemma_layout_is_read(all, a, b, n, n + 2, n + 4);
}

/// What ends with the first flag, or in the whitespace after it, is
/// completed by two flags.
proof fn lemma_complete_second_gap(s: Seq<u8>, a: int, b: int, c: int, later: Seq<u8>)
    requires
        timestamp_laid_out(s, a, b),
        b < c < s.len(),
        forall|i: int| b <= i < c ==> is_space(#[trigger] s[i]),
        is_flag(s[c]),
        forall|i: int| c < i < s.len() ==> is_space(#[trigger] s[i]),
        later == bridge(s, c + 1) + seq![0x20u8, 0x30u8],
    ensures
        framing(s + later) is Record,
{
    let all = s + later;
    let d = all.len() - 3;
    assert(all.subrange(a, b) =~= s.subrange(a, b));
    assert forall|i: int| 0 <= i < s.len() implies all[i] == s[i] by {}
    assert(laid_out(all, a, b, c, d, d + 2));
    lemma_layout_is_read(all, a, b, c, d, d + 2);
}

/// What ends with the second flag, or in the whitespace after it, is
/// completed by one flag.
proof fn lemma_complete_third_gap(s: Seq<u8>, a: int, b: int, c: int, d: int, later: Seq<u8>)
    requires
        timestamp_laid_out(s, a, b),
        b < c < d < s.len(),
        c + 1 < d,
        forall|i: int| b <= i < c ==> is_space(#[trigger] s[i]),
        is_flag(s[c]),
        forall|i: int| c < i < d ==> is_space(#[trigger] s[i]),
        is_flag(s[d]),
        forall|i: int| d < i < s.len() ==> is_space(#[trigger] s[i]),
        later == bridge(s, d + 1),
    ensures
        framing(s + later) is Record,
{
    let all = s + later;
    let e = all.len() - 1;
    assert(all.subrange(a, b) =~= s.subrange(a, b));
    assert forall|i: int| 0 <= i < s.len() implies all[i] == s[i] by {}
    assert(laid_out(all, a, b, c, d, e));
    lemma_layout_is_read(all, a, b, c, d, e);
}

/// What is read as the beginning of a record is one: there are bytes that
/// complete it.
pub proof fn lemma_partial_can_complete(s: Seq<u8>)
    requires
        framing(s) is Partial,
    ensures
        exists|later: Seq<u8>| #[trigger] framing(s + later) is Record,
{
    let n = s.len() as int;
    let a = spaces_end(s, 0);
    let b = digits_end(s, a);
    lemma_spaces_end_bounds(s, 0);
    lemma_spaces_run(s, 0);
    if a >= n {
        let later = seq![0x30u8, 0x20u8, 0x30u8, 0x20u8, 0x30u8, 0x20u8, 0x30u8];
        lemma_complete_blank(s, later);
        assert(framing(s + later) is Record);
    } else {
        lemma_digits_end_bounds(s, a);
        lemma_digits_run(s, a);
        if b >= n {
            let later = seq![0x20u8, 0x30u8, 0x20u8, 0x30u8, 0x20u8, 0x30u8];
            lemma_complete_timestamp(s, a, later);
            assert(framing(s + later) is Record);
        } else {
            lemma_spaces_end_bounds(s, b);
            lemma_spaces_run(s, b);
            if flag_after(s, b) is Short {
                let later = seq![0x30u8, 0x20u8, 0x30u8, 0x20u8, 0x30u8];
                lemma_complete_first_gap(s, a, b, later);
                assert(framing(s + later) is Record);
            } else {
                let c = flag_after(s, b)->At_0;
                lemma_spaces_end_bounds(s, c + 1);
                lemma_spaces_run(s, c + 1);
                if flag_after(s, c + 1) is Short {
                    let later = bridge(s, c + 1) + seq![0x20u8, 0x30u8];
                    lemma_complete_second_gap(s, a, b, c, later);
                    assert(framing(s + later) is Record);
                } else {
                    let d = flag_after(s, c + 1)->At_0;
                    lemma_spaces_end_bounds(s, d + 1);
                    lemma_spaces_run(s, d + 1);
                    let later = bridge(s, d + 1);
                    lemma_complete_third_gap(s, a, b, c, d, later);
                    assert(framing(s + later) is Record);
                }
            }
        }
    }
}

} // verus!
