//! QGM: a table of dialogue messages with labels and text that may be
//! obfuscated.
use crate::qfg5resource::bytes::{
    le_read_u16, le_read_u32, le_write_u32, lemma_bytes_of_word, lemma_word_of_bytes, u16_at,
    u32_at, u32_bytes,
};
use crate::qfg5resource::cursor::{fits, short, Cursor};
use crate::qfg5resource::error::{expect_magic, DecodeError};
use crate::qfg5resource::parse::{lemma_many_fails, lemma_views_push, parse_many, views};
use crate::qfg5resource::text::{bytes_as_chars, string_from_bytes, string_from_utf8, string_push};
use vstd::prelude::*;
use vstd::slice::{slice_subrange, slice_to_vec};
use vstd::string::StringExecFns;
use vstd::utf8::{decode_utf8, valid_utf8};

verus! {

/// The signature of a QGM buffer.
pub const QGM_MAGIC: u32 = 0x51474d20;

/// The flag bit of obfuscated text.
pub const FLAG_TEXT_MANGLED: u16 = 4;

/// The constant that each obfuscated word is combined with.
pub const MANGLE_KEY: u32 = 0xf1acc1d;

/// A word of obfuscated text made plain: combined with the key by exclusive
/// or, then rotated right by 15 bits.
pub open spec fn demangle_word(w: u32) -> u32 {
    ((w ^ MANGLE_KEY) >> 15) | ((w ^ MANGLE_KEY) << 17)
}

/// A word of plain text obfuscated: rotated left by 15 bits, then combined
/// with the key by exclusive or.
pub open spec fn mangle_word(w: u32) -> u32 {
    ((w << 15) | (w >> 17)) ^ MANGLE_KEY
}

/// The byte at `i` of obfuscated text made plain: a byte of a whole
/// four-byte word comes from that word made plain; a byte behind the last
/// whole word has its bits inverted.
pub open spec fn demangled_byte(data: Seq<u8>, i: int) -> u8 {
    if i < data.len() / 4 * 4 {
        u32_bytes(demangle_word(u32_at(data, i - i % 4)))[i % 4]
    } else {
        (255 - data[i]) as u8
    }
}

/// Obfuscated text made plain, byte by byte.
pub open spec fn demangled(data: Seq<u8>) -> Seq<u8> {
    Seq::new(data.len(), |i: int| demangled_byte(data, i))
}

/// The byte at `i` of plain text obfuscated.
pub open spec fn mangled_byte(text: Seq<u8>, i: int) -> u8 {
    if i < text.len() / 4 * 4 {
        u32_bytes(mangle_word(u32_at(text, i - i % 4)))[i % 4]
    } else {
        (255 - text[i]) as u8
    }
}

/// Plain text obfuscated, byte by byte.
pub open spec fn mangled(text: Seq<u8>) -> Seq<u8> {
    Seq::new(text.len(), |i: int| mangled_byte(text, i))
}

/// Making plain undoes obfuscating, word by word.
pub proof fn lemma_demangle_mangle_word(w: u32)
    ensures
        demangle_word(mangle_word(w)) == w,
{
    assert((((((w << 15) | (w >> 17)) ^ 0xf1acc1du32) ^ 0xf1acc1du32) >> 15) | (((((w << 15) | (w
        >> 17)) ^ 0xf1acc1du32) ^ 0xf1acc1du32) << 17) == w) by (bit_vector);
}

/// Making plain undoes obfuscating: for every text, of whole words or not.
pub proof fn lemma_demangle_mangle(text: Seq<u8>)
    ensures
        demangled(mangled(text)) == text,
{
    let m = mangled(text);
    assert forall|i: int| 0 <= i < text.len() implies demangled_byte(m, i) == text[i] by {
        if i < text.len() / 4 * 4 {
            let at = i - i % 4;
            let w = u32_at(text, at);
            assert(m.subrange(at, at + 4) =~= u32_bytes(mangle_word(w)));
            lemma_word_of_bytes(mangle_word(w));
            assert(u32_at(m, at) == u32_at(m.subrange(at, at + 4), 0));
            lemma_demangle_mangle_word(w);
            lemma_bytes_of_word(text, at);
            assert(text.subrange(at, at + 4)[i % 4] == text[i]);
        }
    }
    assert(demangled(m) =~= text);
}

/// Rotates `v` right by 15 bits.
fn rotate_right_15(v: u32) -> (r: u32)
    ensures
        r == (v >> 15) | (v << 17),
{
    (v >> 15) | (v << 17)
}

/// Makes obfuscated text plain. Every byte of the result becomes the
/// character with that code point.
pub fn demangle_text(data: &[u8]) -> (text: String)
    ensures
        text@ == bytes_as_chars(demangled(data@)),
{
    let mut output = String::new();
    let whole: usize = data.len() / 4 * 4;
    let mut i: usize = 0;
    assert(output@ =~= bytes_as_chars(demangled(data@).take(0)));
    while i < whole
        invariant
            i <= whole,
            i % 4 == 0,
            whole == data@.len() / 4 * 4,
            output@ == bytes_as_chars(demangled(data@).take(i as int)),
        decreases whole - i,
    {
        let v = le_read_u32(slice_subrange(data, i, i + 4));
        let v = rotate_right_15(v ^ MANGLE_KEY);
        let chars = le_write_u32(v);
        assert(u32_at(data@.subrange(i as int, i + 4), 0) == u32_at(data@, i as int));
        let mut k: usize = 0;
        while k < 4
            invariant
                k <= 4,
                i + 4 <= whole,
                i % 4 == 0,
                whole == data@.len() / 4 * 4,
                chars@ == u32_bytes(demangle_word(u32_at(data@, i as int))),
                output@ == bytes_as_chars(demangled(data@).take(i + k)),
            decreases 4 - k,
        {
            string_push(&mut output, chars[k] as char);
            assert(demangled_byte(data@, i + k) == chars@[k as int]);
            assert(output@ =~= bytes_as_chars(demangled(data@).take(i + k + 1)));
            k += 1;
        }
        i += 4;
    }
    while i < data.len()
        invariant
            whole <= i <= data.len(),
            whole == data@.len() / 4 * 4,
            output@ == bytes_as_chars(demangled(data@).take(i as int)),
        decreases data.len() - i,
    {
        let v: u8 = 255 - data[i];
        string_push(&mut output, v as char);
        assert(output@ =~= bytes_as_chars(demangled(data@).take(i + 1)));
        i += 1;
    }
    assert(demangled(data@).take(data@.len() as int) =~= demangled(data@));
    output
}

/// 36 to the power of `n`.
pub open spec fn power_of_36(n: nat) -> nat
    decreases n,
{
    if n == 0 {
        1
    } else {
        36 * power_of_36((n - 1) as nat)
    }
}

/// The base-36 digit of the value `v` below 36: `0` to `9`, then `A` to `Z`.
pub open spec fn digit_char(v: int) -> char {
    if v < 10 {
        (0x30 + v) as char
    } else {
        (0x41 + v - 10) as char
    }
}

/// The value of a base-36 digit, if `c` is one.
pub open spec fn digit_value(c: char) -> Option<u16> {
    if 0x30 <= c as int <= 0x39 {
        Some((c as int - 0x30) as u16)
    } else if 0x41 <= c as int <= 0x5a {
        Some((c as int - 0x41 + 10) as u16)
    } else {
        None
    }
}

/// `v` written with exactly `num_digits` base-36 digits, the most
/// significant first; of a greater `v` only the low digits.
pub open spec fn base_36_digits(v: nat, num_digits: nat) -> Seq<char>
    decreases num_digits,
{
    if num_digits == 0 {
        Seq::empty()
    } else {
        base_36_digits(v / 36, (num_digits - 1) as nat).push(digit_char((v % 36) as int))
    }
}

/// Decoding a digit undoes encoding it.
pub proof fn lemma_digit_round_trip(v: u16)
    requires
        v < 36,
    ensures
        digit_value(digit_char(v as int)) == Some(v),
{
}

/// Powers of 36 grow with the exponent.
pub proof fn lemma_power_of_36_grows(a: nat, b: nat)
    requires
        a <= b,
    ensures
        1 <= power_of_36(a) <= power_of_36(b),
    decreases b,
{
    if b > 0 {
        if a < b {
            lemma_power_of_36_grows(a, (b - 1) as nat);
        } else {
            lemma_power_of_36_grows((a - 1) as nat, (b - 1) as nat);
        }
    }
}

/// The base-36 digit of `v`, if `v` is below 36.
pub fn encode_digit_base_36(v: u16) -> (r: Option<char>)
    ensures
        r == if v < 36 {
            Some(digit_char(v as int))
        } else {
            None
        },
{
    if v < 10 {
        Some((0x30 + v as u8) as char)
    } else if v < 36 {
        Some((0x41 + (v as u8 - 10)) as char)
    } else {
        None
    }
}

/// The value of the base-36 digit `c`, if it is one.
pub fn decode_digit_base_36(c: char) -> (r: Option<u16>)
    ensures
        r == digit_value(c),
{
    let code = c as u32;
    if 0x30 <= code && code <= 0x39 {
        Some((code - 0x30) as u16)
    } else if 0x41 <= code && code <= 0x5a {
        Some((code - 0x41 + 10) as u16)
    } else {
        None
    }
}

/// Whether `v` can be written with `num_digits` base-36 digits.
fn fits_base_36(v: u16, num_digits: usize) -> (r: bool)
    ensures
        r == (v < power_of_36(num_digits as nat)),
{
    let mut limit: u32 = 1;
    let mut i: usize = 0;
    while i < num_digits && limit <= 0xffff
        invariant
            i <= num_digits,
            limit == power_of_36(i as nat),
            limit <= 0xffff * 36,
        decreases num_digits - i,
    {
        limit = limit * 36;
        i += 1;
    }
    proof {
        lemma_power_of_36_grows(i as nat, num_digits as nat);
    }
    (v as u32) < limit
}

/// `v` written with exactly `num_digits` base-36 digits, or nothing where
/// it does not fit.
pub fn encode_base_36(v: u16, num_digits: usize) -> (r: Option<String>)
    ensures
        r is Some <==> v < power_of_36(num_digits as nat),
        r matches Some(s) ==> s@ == base_36_digits(v as nat, num_digits as nat),
{
    if !fits_base_36(v, num_digits) {
        return None;
    }
    let mut chars = vec!['0'; num_digits];
    let mut rest = v;
    let mut n: usize = num_digits;
    assert(base_36_digits(v as nat, num_digits as nat) + chars@.subrange(n as int, n as int)
        =~= base_36_digits(v as nat, num_digits as nat));
    while n > 0
        invariant
            n <= num_digits,
            chars@.len() == num_digits,
            base_36_digits(v as nat, num_digits as nat) == base_36_digits(rest as nat, n as nat)
                + chars@.subrange(n as int, num_digits as int),
        decreases n,
    {
        let ghost before = chars@;
        let digit = match encode_digit_base_36(rest % 36) {
            Some(digit) => digit,
            None => '0',
        };
        n -= 1;
        chars[n] = digit;
        assert(base_36_digits((rest / 36) as nat, n as nat).push(digit) + before.subrange(
            n + 1,
            num_digits as int,
        ) =~= base_36_digits((rest / 36) as nat, n as nat) + chars@.subrange(
            n as int,
            num_digits as int,
        ));
        rest = rest / 36;
    }
    assert(Seq::<char>::empty() + chars@.subrange(0, num_digits as int) =~= chars@);
    let mut s = String::new();
    let mut i: usize = 0;
    while i < num_digits
        invariant
            i <= num_digits,
            chars@.len() == num_digits,
            s@ == chars@.take(i as int),
        decreases num_digits - i,
    {
        string_push(&mut s, chars[i]);
        assert(s@ =~= chars@.take(i + 1));
        i += 1;
    }
    assert(chars@.take(num_digits as int) =~= chars@);
    Some(s)
}

/// A label: twelve raw bytes, stored with a zero byte behind them.
#[derive(Debug, Clone, Copy, PartialEq, Eq)]
pub struct QgmLabel {
    value: [u8; 12],
}

#[derive(Debug, Clone, PartialEq, Eq)]
pub struct QgmMessage {
    pub id: [u16; 4],
    pub speaker_id: u16,
    pub msg_id: u16,
    pub message_label: Option<QgmLabel>,
    pub dialog_options: Vec<QgmLabel>,
    pub text: String,
}

#[derive(Debug, Clone, PartialEq, Eq)]
pub struct QgmDecoder {
    pub file_id: u16,
    pub messages: Vec<QgmMessage>,
}

/// The mathematical content of a [`QgmMessage`]; a label is its twelve
/// bytes.
pub struct Message {
    pub id: [u16; 4],
    pub speaker_id: u16,
    pub msg_id: u16,
    pub message_label: Option<Seq<u8>>,
    pub dialog_options: Seq<Seq<u8>>,
    pub text: Seq<char>,
}

/// The mathematical content of a [`QgmDecoder`].
pub struct DialogueFile {
    pub file_id: u16,
    pub messages: Seq<Message>,
}

impl View for QgmLabel {
    type V = Seq<u8>;

    closed spec fn view(&self) -> Seq<u8> {
        self.value@
    }
}

impl View for QgmMessage {
    type V = Message;

    open spec fn view(&self) -> Message {
        Message {
            id: self.id,
            speaker_id: self.speaker_id,
            msg_id: self.msg_id,
            message_label: match self.message_label {
                Some(label) => Some(label@),
                None => None,
            },
            dialog_options: views(self.dialog_options@),
            text: self.text@,
        }
    }
}

impl View for QgmDecoder {
    type V = DialogueFile;

    open spec fn view(&self) -> DialogueFile {
        DialogueFile { file_id: self.file_id, messages: views(self.messages@) }
    }
}

/// The label stored at `pos`: twelve bytes and a zero byte.
pub open spec fn label_at(data: Seq<u8>, pos: int) -> Result<(Seq<u8>, int), DecodeError> {
    if !fits(data, pos, 13) {
        Err(short(data, pos, 13))
    } else if data[pos + 12] != 0 {
        Err(
            DecodeError::UnsupportedVariant {
                field: "label terminator",
                actual: data[pos + 12] as u64,
            },
        )
    } else {
        Ok((data.subrange(pos, pos + 12), pos + 13))
    }
}

/// [`label_at`] as a reader of `data`.
pub open spec fn label_reader(data: Seq<u8>) -> spec_fn(int) -> Result<(Seq<u8>, int), DecodeError> {
    |p: int| label_at(data, p)
}

/// The label of a message, stored at `pos` if the message has one.
pub open spec fn optional_label_at(data: Seq<u8>, pos: int, present: bool) -> Result<
    (Option<Seq<u8>>, int),
    DecodeError,
> {
    if present {
        match label_at(data, pos) {
            Err(e) => Err(e),
            Ok((label, end)) => Ok((Some(label), end)),
        }
    } else {
        Ok((None, pos))
    }
}

/// The text that the bytes `raw` of a message with the flags `flags` stand
/// for: made plain where the flags say that it is obfuscated, else decoded
/// as UTF-8, which can fail.
pub open spec fn message_text(raw: Seq<u8>, flags: u16) -> Option<Seq<char>> {
    if flags & FLAG_TEXT_MANGLED != 0 {
        Some(bytes_as_chars(demangled(raw)))
    } else if valid_utf8(raw) {
        Some(decode_utf8(raw))
    } else {
        None
    }
}

/// The message stored at `pos`: a record of sixteen 16-bit fields (four
/// identifiers, the speaker, three unknown, the number of dialogue options,
/// the flags, one unknown, the message id, the text length, a flag word, the
/// label flag, one unknown), the label if the label flag is set, one label
/// for each dialogue option, the text, and four unused bytes.
pub open spec fn message_at(data: Seq<u8>, pos: int) -> Result<(Message, int), DecodeError> {
    if !fits(data, pos, 32) {
        Err(short(data, pos, 32))
    } else {
        let length = u16_at(data, pos + 24) as int;
        match optional_label_at(data, pos + 32, u16_at(data, pos + 28) != 0) {
            Err(e) => Err(e),
            Ok((message_label, p1)) => match parse_many(
                label_reader(data),
                p1,
                u16_at(data, pos + 16) as nat,
            ) {
                Err(e) => Err(e),
                Ok((dialog_options, p2)) => if !fits(data, p2, length) {
                    Err(short(data, p2, length))
                } else if !fits(data, p2 + length, 4) {
                    Err(short(data, p2 + length, 4))
                } else {
                    match message_text(data.subrange(p2, p2 + length), u16_at(data, pos + 18)) {
                        None => Err(DecodeError::TextDecodeFailed { offset: p2 as u64 }),
                        Some(text) => Ok(
                            (
                                Message {
                                    id: [
                                        u16_at(data, pos),
                                        u16_at(data, pos + 2),
                                        u16_at(data, pos + 4),
                                        u16_at(data, pos + 6),
                                    ],
                                    speaker_id: u16_at(data, pos + 8),
                                    msg_id: u16_at(data, pos + 22),
                                    message_label,
                                    dialog_options,
                                    text,
                                },
                                p2 + length + 4,
                            ),
                        ),
                    }
                },
            },
        }
    }
}

/// [`message_at`] as a reader of `data`.
pub open spec fn message_reader(data: Seq<u8>) -> spec_fn(int) -> Result<
    (Message, int),
    DecodeError,
> {
    |p: int| message_at(data, p)
}

/// What a QGM buffer decodes to: the signature, a version that is not
/// checked, the number of messages, an unknown field, the file id, and the
/// messages one after the other.
pub open spec fn parse_qgm(data: Seq<u8>) -> Result<DialogueFile, DecodeError> {
    if !fits(data, 0, 4) {
        Err(short(data, 0, 4))
    } else if u32_at(data, 0) != QGM_MAGIC {
        Err(
            DecodeError::MagicMismatch {
                field: "magic",
                expected: QGM_MAGIC as u64,
                actual: u32_at(data, 0) as u64,
            },
        )
    } else if !fits(data, 4, 4) {
        Err(short(data, 4, 4))
    } else if !fits(data, 8, 4) {
        Err(short(data, 8, 4))
    } else if !fits(data, 12, 2) {
        Err(short(data, 12, 2))
    } else if !fits(data, 14, 2) {
        Err(short(data, 14, 2))
    } else {
        match parse_many(message_reader(data), 16, u32_at(data, 8) as nat) {
            Err(e) => Err(e),
            Ok((messages, _)) => Ok(DialogueFile { file_id: u16_at(data, 14), messages }),
        }
    }
}

/// The dotted code of a message: the file id in three base-36 digits, the
/// first two identifiers in two digits each, a dot, the third identifier in
/// two digits and the fourth in one; nothing where one of them does not fit.
pub open spec fn label_code(file_id: u16, id: [u16; 4]) -> Option<Seq<char>> {
    if file_id < power_of_36(3) && id[0] < power_of_36(2) && id[1] < power_of_36(2) && id[2]
        < power_of_36(2) && id[3] < power_of_36(1) {
        Some(
            base_36_digits(file_id as nat, 3) + base_36_digits(id[0] as nat, 2) + base_36_digits(
                id[1] as nat,
                2,
            ) + seq!['.'] + base_36_digits(id[2] as nat, 2) + base_36_digits(id[3] as nat, 1),
        )
    } else {
        None
    }
}

impl QgmLabel {
    /// Every label has twelve bytes.
    pub proof fn lemma_len(self)
        ensures
            self@.len() == 12,
    {
    }

    /// Reads a label at the cursor.
    pub fn new(cursor: &mut Cursor) -> (r: Result<QgmLabel, DecodeError>)
        ensures
            final(cursor).data == old(cursor).data,
            match r {
                Ok(label) => label_at(old(cursor).data@, old(cursor).pos as int) == Ok::<
                    _,
                    DecodeError,
                >((label@, final(cursor).pos as int)) && label@.len() == 12,
                Err(e) => label_at(old(cursor).data@, old(cursor).pos as int) == Err::<
                    (Seq<u8>, int),
                    _,
                >(e),
            },
    {
        let message = cursor.read_slice(13)?;
        if message[12] != 0 {
            return Err(
                DecodeError::UnsupportedVariant {
                    field: "label terminator",
                    actual: message[12] as u64,
                },
            );
        }
        let mut value = [0u8;12];
        let mut i: usize = 0;
        while i < 12
            invariant
                i <= 12,
                message@.len() == 13,
                forall|k: int| 0 <= k < i ==> value@[k] == message@[k],
            decreases 12 - i,
        {
            value[i] = message[i];
            i += 1;
        }
        assert(value@ =~= message@.subrange(0, 12));
        assert(message@.subrange(0, 12) =~= old(cursor).data@.subrange(
            old(cursor).pos as int,
            old(cursor).pos + 12,
        ));
        Ok(QgmLabel { value })
    }

    /// The dotted base-36 code of the message `m` of the file `qgm`, or
    /// nothing where an identifier does not fit its digits.
    pub fn encode(qgm: &QgmDecoder, m: &QgmMessage) -> (r: Option<String>)
        ensures
            r is Some <==> label_code(qgm.file_id, m.id) is Some,
            r matches Some(s) ==> Some(s@) == label_code(qgm.file_id, m.id),
    {
        let mut code = encode_base_36(qgm.file_id, 3)?;
        let first = encode_base_36(m.id[0], 2)?;
        let second = encode_base_36(m.id[1], 2)?;
        let third = encode_base_36(m.id[2], 2)?;
        let fourth = encode_base_36(m.id[3], 1)?;
        code.append(first.as_str());
        code.append(second.as_str());
        string_push(&mut code, '.');
        code.append(third.as_str());
        code.append(fourth.as_str());
        Some(code)
    }

    /// The twelve bytes as characters, each byte the code point of one.
    pub fn to_string(&self) -> (s: String)
        ensures
            s@ == bytes_as_chars(self@),
    {
        string_from_bytes(self.value.as_slice())
    }
}

/// The 16-bit field number `k` of a record.
fn field(record: &[u8], k: usize) -> (v: u16)
    requires
        k < 16,
        record@.len() == 32,
    ensures
        v == u16_at(record@, 2 * k),
{
    le_read_u16(slice_subrange(record, 2 * k, 2 * k + 2))
}

#[verifier::loop_isolation(false)]
fn read_message(cursor: &mut Cursor) -> (r: Result<QgmMessage, DecodeError>)
    ensures
        final(cursor).data == old(cursor).data,
        match r {
            Ok(m) => message_at(old(cursor).data@, old(cursor).pos as int) == Ok::<_, DecodeError>(
                (m@, final(cursor).pos as int),
            ),
            Err(e) => message_at(old(cursor).data@, old(cursor).pos as int) == Err::<
                (Message, int),
                _,
            >(e),
        },
{
    let ghost data = cursor.data@;
    let ghost pos = cursor.pos as int;
    let record = cursor.read_slice(32)?;
    let id = [field(record, 0), field(record, 1), field(record, 2), field(record, 3)];
    let speaker_id = field(record, 4);
    let num_dialog_options = field(record, 8);
    let flags = field(record, 9);
    let msg_id = field(record, 11);
    let msg_length = field(record, 12);
    let msg_label_flag = field(record, 14);

    let message_label: Option<QgmLabel> = if msg_label_flag != 0 {
        Some(QgmLabel::new(cursor)?)
    } else {
        None
    };
    let ghost p1 = cursor.pos as int;

    let mut dialog_options: Vec<QgmLabel> = Vec::new();
    let mut n: u16 = 0;
    assert(views(dialog_options@) =~= Seq::empty());
    while n < num_dialog_options
        invariant
            n <= num_dialog_options,
            cursor.data == old(cursor).data,
            parse_many(label_reader(data), p1, n as nat) == Ok::<_, DecodeError>(
                (views(dialog_options@), cursor.pos as int),
            ),
        decreases num_dialog_options - n,
    {
        match QgmLabel::new(cursor) {
            Ok(label) => {
                proof {
                    lemma_views_push(dialog_options@, label);
                }
                dialog_options.push(label);
            },
            Err(e) => {
                proof {
                    lemma_many_fails(
                        label_reader(data),
                        p1,
                        (n + 1) as nat,
                        num_dialog_options as nat,
                    );
                }
                return Err(e);
            },
        }
        n = n + 1;
    }
    let text_offset = cursor.position();
    let text_data = cursor.read_slice(msg_length as usize)?;
    let _unk8 = cursor.read_u32()?;

    let text = if (flags & FLAG_TEXT_MANGLED) != 0 {
        demangle_text(text_data)
    } else {
        match string_from_utf8(slice_to_vec(text_data)) {
            Some(text) => text,
            None => {
                return Err(DecodeError::TextDecodeFailed { offset: text_offset as u64 });
            },
        }
    };
    Ok(QgmMessage { id, speaker_id, msg_id, message_label, dialog_options, text })
}

impl QgmDecoder {
    /// Decodes a QGM buffer. Bytes behind the last message are not looked
    /// at.
    #[verifier::loop_isolation(false)]
    pub fn new(data: &[u8]) -> (r: Result<QgmDecoder, DecodeError>)
        ensures
            match r {
                Ok(d) => parse_qgm(data@) == Ok::<_, DecodeError>(d@),
                Err(e) => parse_qgm(data@) == Err::<DialogueFile, _>(e),
            },
    {
        let mut cursor = Cursor::new(data);
        let magic = cursor.read_u32()?;
        expect_magic("magic", QGM_MAGIC as u64, magic as u64)?;
        let _version = cursor.read_u32()?;
        let num_messages = cursor.read_u32()?;
        let _unk1 = cursor.read_u16()?;
        let file_id = cursor.read_u16()?;

        let mut messages: Vec<QgmMessage> = Vec::new();
        let mut n: u32 = 0;
        assert(views(messages@) =~= Seq::empty());
        while n < num_messages
            invariant
                n <= num_messages,
                cursor.data@ == data@,
                parse_many(message_reader(data@), 16, n as nat) == Ok::<_, DecodeError>(
                    (views(messages@), cursor.pos as int),
                ),
            decreases num_messages - n,
        {
            match read_message(&mut cursor) {
                Ok(m) => {
                    proof {
                        lemma_views_push(messages@, m);
                    }
                    messages.push(m);
                },
                Err(e) => {
                    proof {
                        lemma_many_fails(
                            message_reader(data@),
                            16,
                            (n + 1) as nat,
                            num_messages as nat,
                        );
                    }
                    return Err(e);
                },
            }
            n = n + 1;
        }
        Ok(QgmDecoder { file_id, messages })
    }
}

} // verus!
