//! Snapshots: the histogram as a PNG byte stream, and the label under
//! which a snapshot is filed.

use vstd::prelude::*;
use crate::histogram::Histogram;

verus! {

/// The colour layout of a picture, 8 bits a sample.
#[derive(Clone, Copy, Debug, PartialEq, Eq, Structural)]
pub enum ColorKind {
    /// One grey sample per pixel.
    Grayscale,
    /// A red, a green and a blue sample per pixel.
    Rgb,
}

/// Why a picture could not be encoded.
#[derive(Clone, Copy, Debug, PartialEq, Eq, Structural)]
pub enum EncodeFailure {
    /// Writing the stream failed.
    Io,
    /// The picture cannot be expressed in the format.
    Format,
    /// A parameter of the encoder was refused.
    Parameter,
    /// A limit of the encoder was exceeded.
    LimitsExceeded,
}

/// Which snapshot of a run a picture is.
#[derive(Clone, Copy, Debug, PartialEq, Eq, Structural)]
pub enum Snapshot {
    /// An intermediate picture, with its sequence index.
    Sequence(i32),
    /// The picture at the end of the scan.
    Final,
}

/// `png::EncodingError`, the error of the `png` crate's encoder. Nothing
/// is known of a value of it until `failure_of` has told its variant.
#[verifier::external_type_specification]
#[verifier::external_body]
pub struct ExEncodingError(png::EncodingError);

/// The PNG stream that the encoder of the `png` crate produces for a
/// picture of `width` by `height` pixels with the given samples, 8 bits
/// each, under its default settings.
pub uninterp spec fn png_encoding(data: Seq<u8>, width: u32, height: u32, color: ColorKind) -> Seq<
    u8,
>;

/// The number of samples that a pixel has in a colour layout.
pub open spec fn samples_per_pixel(color: ColorKind) -> int {
    match color {
        ColorKind::Grayscale => 1,
        ColorKind::Rgb => 3,
    }
}

/// Calls `png::Encoder` on a buffer in memory: `Encoder::new`, `set_color`,
/// `set_depth` with eight bits, `write_header`, `Writer::write_image_data`
/// and `finish`. The bytes are the stream that the encoder wrote.
///
/// The encoder refuses a picture with a side of zero pixels, a colour
/// layout that does not go with the bit depth, an indexed picture without a
/// palette, and a buffer of the wrong length. Grey and RGB both go with
/// eight bits, and the buffer must hold one sample for every channel of
/// every pixel, which also keeps the encoder's own size arithmetic within
/// the machine's integers. Everything else is written to memory, which
/// takes what it is given. So a picture with at least one pixel a side is
/// encoded.
#[verifier::external_body]
fn png_encode(data: &Vec<u8>, width: u32, height: u32, color: ColorKind) -> (stream: Result<
    Vec<u8>,
    png::EncodingError,
>)
    requires
        data@.len() == width * height * samples_per_pixel(color),
    ensures
        width >= 1 && height >= 1 ==> stream is Ok,
        stream matches Ok(bytes) ==> bytes@ == png_encoding(data@, width, height, color),
{
    let mut stream: Vec<u8> = Vec::new();
    let mut encoder = png::Encoder::new(&mut stream, width, height);
    encoder.set_color(
        match color {
            ColorKind::Grayscale => png::ColorType::Grayscale,
            ColorKind::Rgb => png::ColorType::Rgb,
        },
    );
    encoder.set_depth(png::BitDepth::Eight);
    let mut writer = encoder.write_header()?;
    writer.write_image_data(data)?;
    writer.finish()?;
    Ok(stream)
}

/// Tells the variants of `png::EncodingError` apart. Nothing is claimed of
/// which one an encoding fails with.
#[verifier::external_body]
fn failure_of(error: png::EncodingError) -> (failure: EncodeFailure) {
    match error {
        png::EncodingError::IoError(_) => EncodeFailure::Io,
        png::EncodingError::Format(_) => EncodeFailure::Format,
        png::EncodingError::Parameter(_) => EncodeFailure::Parameter,
        png::EncodingError::LimitsExceeded => EncodeFailure::LimitsExceeded,
    }
}

/// The colour layout that goes with a number of channels: grey for one,
/// red-green-blue for three.
pub open spec fn color_kind_of(channels: int) -> Option<ColorKind> {
    if channels == 1 {
        Some(ColorKind::Grayscale)
    } else if channels == 3 {
        Some(ColorKind::Rgb)
    } else {
        None
    }
}

/// The colour layout for a number of channels, or `None` where no layout
/// has that many.
pub fn color_kind(channels: usize) -> (kind: Option<ColorKind>)
    ensures
        kind == color_kind_of(channels as int),
{
    if channels == 1 {
        Some(ColorKind::Grayscale)
    } else if channels == 3 {
        Some(ColorKind::Rgb)
    } else {
        None
    }
}

/// What encoding a picture comes to, given what the encoder handed back:
/// its stream, or the kind of its failure.
pub fn snapshot_outcome(encoded: Result<Vec<u8>, png::EncodingError>) -> (outcome: Result<
    Vec<u8>,
    EncodeFailure,
>)
    ensures
        encoded is Ok <==> outcome is Ok,
        encoded matches Ok(bytes) ==> outcome == Ok::<Vec<u8>, EncodeFailure>(bytes),
{
    match encoded {
        Ok(bytes) => Ok(bytes),
        Err(error) => Err(failure_of(error)),
    }
}

/// Encodes the histogram as a PNG picture of its own width and height:
/// greyscale with one channel, RGB with three, eight bits a sample, one
/// counter a sample, in buffer order. The histogram itself is left as it
/// is. Every histogram can be encoded.
pub fn encode_snapshot(screen_data: &Histogram) -> (outcome: Result<Vec<u8>, EncodeFailure>)
    ensures
        outcome matches Ok(bytes) && color_kind_of(screen_data.spec_channels() as int) matches Some(
            kind,
        ) && bytes@ == png_encoding(
            screen_data@,
            screen_data.spec_width() as u32,
            screen_data.spec_height() as u32,
            kind,
        ),
{
    let width: i32 = screen_data.width();
    let height: i32 = screen_data.height();
    let kind: ColorKind = if screen_data.channels() == 3 {
        ColorKind::Rgb
    } else {
        ColorKind::Grayscale
    };
    let data: &Vec<u8> = screen_data.counters();
    snapshot_outcome(png_encode(data, width as u32, height as u32, kind))
}

/// The least number of characters in the label of a snapshot.
pub const LABEL_WIDTH: usize = 4;

/// The character of a decimal digit.
pub open spec fn digit_char(d: int) -> char {
    seq!['0', '1', '2', '3', '4', '5', '6', '7', '8', '9'][d]
}

/// A natural number in decimal notation.
pub open spec fn decimal(n: nat) -> Seq<char>
    decreases n,
{
    if n < 10 {
        seq![digit_char(n as int)]
    } else {
        decimal(n / 10).push(digit_char((n % 10) as int))
    }
}

/// An integer in decimal notation, with a minus sign where it is negative.
pub open spec fn signed_decimal(n: int) -> Seq<char> {
    if n < 0 {
        seq!['-'] + decimal((-n) as nat)
    } else {
        decimal(n as nat)
    }
}

/// The label of the snapshot with the given sequence index: the index in
/// decimal notation, with zeros put before it until the label is
/// `LABEL_WIDTH` characters long.
pub open spec fn sequence_label_of(sequence_index: int) -> Seq<char> {
    let number = signed_decimal(sequence_index);
    Seq::new(
        if number.len() < LABEL_WIDTH {
            (LABEL_WIDTH - number.len()) as nat
        } else {
            0
        },
        |i: int| '0',
    ) + number
}

/// The label under which a snapshot is filed.
pub open spec fn label_of(snapshot: Snapshot) -> Seq<char> {
    match snapshot {
        Snapshot::Sequence(sequence_index) => sequence_label_of(sequence_index as int),
        Snapshot::Final => seq!['f', 'i', 'n'],
    }
}

/// Calls `format_num::NumberFormat::format` with the pattern `0>4d`: the
/// number in decimal notation, right-aligned in a field of four characters
/// that is filled with zeros.
#[verifier::external_body]
fn format_sequence_index(sequence_index: i32) -> (label: String)
    ensures
        label@ == sequence_label_of(sequence_index as int),
{
    format_num::NumberFormat::new().format("0>4d", sequence_index)
}

/// The label under which a snapshot is filed: its zero-padded sequence
/// index, or `fin` for the final picture.
pub fn snapshot_label(snapshot: Snapshot) -> (label: String)
    ensures
        label@ == label_of(snapshot),
{
    match snapshot {
        Snapshot::Sequence(sequence_index) => format_sequence_index(sequence_index),
        Snapshot::Final => {
            proof {
                reveal_strlit("fin");
            }
            assert("fin"@ =~= seq!['f', 'i', 'n']);
            "fin".to_string()
        },
    }
}

/// Decimal notation holds at least one character, and digits only.
pub proof fn lemma_decimal_is_digits(n: nat)
    ensures
        decimal(n).len() >= 1,
        forall|i: int|
            0 <= i < decimal(n).len() ==> '0' <= #[trigger] decimal(n)[i] <= '9',
    decreases n,
{
    if n >= 10 {
        lemma_decimal_is_digits(n / 10);
    }
}

/// The label of the final picture is the label of no sequence index.
pub proof fn lemma_final_label_is_distinct(sequence_index: i32)
    ensures
        label_of(Snapshot::Final) != label_of(Snapshot::Sequence(sequence_index)),
{
    let number = signed_decimal(sequence_index as int);
    let label = sequence_label_of(sequence_index as int);
    if sequence_index < 0 {
        lemma_decimal_is_digits((-sequence_index) as nat);
    } else {
        lemma_decimal_is_digits(sequence_index as nat);
    }
    assert(number.len() >= 1);
    let pad = label.len() - number.len();
    if pad > 0 {
        assert(label[0] == '0');
    } else {
        assert(label[0] == number[0]);
        if sequence_index < 0 {
            assert(number[0] == '-');
        } else {
            assert('0' <= decimal(sequence_index as nat)[0] <= '9');
        }
    }
    assert(label[0] != 'f');
    assert(label_of(Snapshot::Final)[0] == 'f');
}

/// Decimal notation starts with a zero only for the number zero.
pub proof fn lemma_decimal_has_no_leading_zero(n: nat)
    requires
        n >= 1,
    ensures
        decimal(n)[0] != '0',
    decreases n,
{
    if n >= 10 {
        lemma_decimal_has_no_leading_zero(n / 10);
        lemma_decimal_is_digits(n / 10);
    }
}

/// Different numbers have different decimal notations.
pub proof fn lemma_decimal_is_injective(a: nat, b: nat)
    requires
        decimal(a) == decimal(b),
    ensures
        a == b,
    decreases a,
{
    lemma_decimal_is_digits(a / 10);
    lemma_decimal_is_digits(b / 10);
    if a >= 10 && b >= 10 {
        assert(decimal(a).drop_last() =~= decimal(a / 10));
        assert(decimal(b).drop_last() =~= decimal(b / 10));
        assert(decimal(a).last() == digit_char((a % 10) as int));
        assert(decimal(b).last() == digit_char((b % 10) as int));
        lemma_decimal_is_injective(a / 10, b / 10);
    } else if a < 10 && b < 10 {
        assert(decimal(a)[0] == digit_char(a as int));
        assert(decimal(b)[0] == digit_char(b as int));
    } else if a < 10 {
        assert(decimal(a).len() == 1);
        assert(decimal(b).len() == decimal(b / 10).len() + 1);
    } else {
        assert(decimal(b).len() == 1);
        assert(decimal(a).len() == decimal(a / 10).len() + 1);
    }
}

/// Different integers have different signed decimal notations.
pub proof fn lemma_signed_decimal_is_injective(a: int, b: int)
    requires
        signed_decimal(a) == signed_decimal(b),
    ensures
        a == b,
{
    if a < 0 {
        lemma_decimal_is_digits((-a) as nat);
        assert(signed_decimal(a)[0] == '-');
        if b < 0 {
            assert(signed_decimal(a).skip(1) =~= decimal((-a) as nat));
            assert(signed_decimal(b).skip(1) =~= decimal((-b) as nat));
            lemma_decimal_is_injective((-a) as nat, (-b) as nat);
        } else {
            lemma_decimal_is_digits(b as nat);
            assert('0' <= decimal(b as nat)[0] <= '9');
        }
    } else {
        lemma_decimal_is_digits(a as nat);
        assert('0' <= decimal(a as nat)[0] <= '9');
        if b < 0 {
            assert(signed_decimal(b)[0] == '-');
        } else {
            lemma_decimal_is_injective(a as nat, b as nat);
        }
    }
}

/// The number of zeros put before a sequence index in its label.
pub open spec fn label_padding(sequence_index: int) -> int {
    sequence_label_of(sequence_index).len() - signed_decimal(sequence_index).len()
}

/// In the label of a sequence index other than zero, the first character
/// that is not a padding zero stands right behind the padding.
proof fn lemma_label_shape(sequence_index: int)
    ensures
        0 <= label_padding(sequence_index),
        signed_decimal(sequence_index).len() >= 1,
        forall|i: int|
            0 <= i < label_padding(sequence_index) ==> sequence_label_of(sequence_index)[i] == '0',
        sequence_label_of(sequence_index).skip(label_padding(sequence_index)) == signed_decimal(
            sequence_index,
        ),
        sequence_index != 0 ==> sequence_label_of(sequence_index)[label_padding(sequence_index)]
            != '0',
        sequence_index == 0 ==> forall|i: int|
            0 <= i < sequence_label_of(sequence_index).len() ==> sequence_label_of(
                sequence_index,
            )[i] == '0',
{
    let number = signed_decimal(sequence_index);
    let label = sequence_label_of(sequence_index);
    let pad = label_padding(sequence_index);
    if sequence_index < 0 {
        lemma_decimal_is_digits((-sequence_index) as nat);
        assert(number[0] == '-');
    } else if sequence_index > 0 {
        lemma_decimal_is_digits(sequence_index as nat);
        lemma_decimal_has_no_leading_zero(sequence_index as nat);
    } else {
        assert(number =~= seq!['0']);
    }
    assert(label.skip(pad) =~= number);
    assert(label[pad] == number[0]);
}

/// Different sequence indices have different labels, so that snapshots
/// numbered in rising order never share one.
pub proof fn lemma_sequence_labels_are_distinct(a: i32, b: i32)
    requires
        a != b,
    ensures
        label_of(Snapshot::Sequence(a)) != label_of(Snapshot::Sequence(b)),
{
    let label_a = sequence_label_of(a as int);
    let label_b = sequence_label_of(b as int);
    lemma_label_shape(a as int);
    lemma_label_shape(b as int);
    let pad_a = label_padding(a as int);
    let pad_b = label_padding(b as int);
    if label_a == label_b {
        if a == 0 {
            assert(label_b[pad_b] == '0');
        } else if b == 0 {
            assert(label_a[pad_a] == '0');
        } else {
            if pad_a < pad_b {
                assert(label_b[pad_a] == '0');
            } else if pad_b < pad_a {
                assert(label_a[pad_b] == '0');
            }
            assert(pad_a == pad_b);
            lemma_signed_decimal_is_injective(a as int, b as int);
        }
    }
}

} // verus!
