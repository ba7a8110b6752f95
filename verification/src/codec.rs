use crate::activation::ActivationFnInfo;
use crate::network::{matrix_view, LayerV, Layer, Network};
use vstd::bytes::{
    lemma_auto_spec_u32_to_from_le_bytes, lemma_auto_spec_u64_to_from_le_bytes,
    spec_u32_from_le_bytes, spec_u32_to_le_bytes, spec_u64_from_le_bytes, spec_u64_to_le_bytes,
    u32_from_le_bytes, u32_to_le_bytes, u64_from_le_bytes, u64_to_le_bytes,
};
use vstd::prelude::*;
use vstd::slice::slice_subrange;
use vstd::string::StrSliceExecFns;

verus! {

/// Why a byte stream was refused by [`decode`].
#[derive(Clone, Copy, Debug, PartialEq, Eq, Structural)]
pub enum DecodeError {
    /// The stream ended before the announced content.
    Truncated,
    /// An activation tag that names no variant.
    UnknownTag,
    /// A label code point that is no character.
    BadChar,
    /// Non-chaining widths, a ragged weight matrix, an empty network or a
    /// weight/bias length mismatch.
    BadShape,
    /// Well-formed content followed by leftover bytes.
    TrailingBytes,
}

/// The structural tag of an activation: its variant, its label and its
/// nested activation, with the label as its character sequence. Two
/// activations with equal tags behave identically.
pub enum ActTag {
    Identity,
    Sigmoid,
    DebugPrint(Seq<char>, Box<ActTag>),
}

/// The tag of an activation value.
pub open spec fn act_tag(a: ActivationFnInfo) -> ActTag
    decreases a,
{
    match a {
        ActivationFnInfo::Identity => ActTag::Identity,
        ActivationFnInfo::Sigmoid => ActTag::Sigmoid,
        ActivationFnInfo::DebugPrint { output, activation } => ActTag::DebugPrint(
            output@,
            Box::new(act_tag(*activation)),
        ),
    }
}

/// One layer reduced to what the byte form carries: weights, biases and the
/// activation tag.
pub struct LayerTagV {
    pub weights: Seq<Seq<u64>>,
    pub biases: Seq<u64>,
    pub activation: ActTag,
}

/// The tag of one layer value.
pub open spec fn layer_tag(l: LayerV) -> LayerTagV {
    LayerTagV { weights: l.weights, biases: l.biases, activation: act_tag(l.activation) }
}

/// The tags of a whole network, layer by layer.
pub open spec fn net_tag(layers: Seq<LayerV>) -> Seq<LayerTagV> {
    Seq::new(layers.len(), |i: int| layer_tag(layers[i]))
}

/// A tagged layer sequence is well formed under the same conditions as a
/// network: non-empty, one bias per neuron, at least one neuron each,
/// rectangular rows, and widths that chain layer to layer.
pub open spec fn wf_tags(tags: Seq<LayerTagV>) -> bool {
    &&& tags.len() >= 1
    &&& forall|i: int|
        0 <= i < tags.len() ==> {
            let width = if i == 0 {
                (#[trigger] tags[i]).weights[0].len()
            } else {
                tags[i - 1].biases.len()
            };
            &&& tags[i].weights.len() == tags[i].biases.len()
            &&& tags[i].weights.len() >= 1
            &&& forall|j: int| 0 <= j < tags[i].weights.len() ==> (#[trigger] tags[i].weights[j]).len() == width
        }
}

// ---------------------------------------------------------------------------
// The byte form, as specification functions.
// ---------------------------------------------------------------------------

/// A label's characters, each as its code point in four little-endian bytes.
pub open spec fn enc_chars(s: Seq<char>) -> Seq<u8>
    decreases s.len(),
{
    if s.len() == 0 {
        Seq::empty()
    } else {
        enc_chars(s.drop_last()) + spec_u32_to_le_bytes(s.last() as u32)
    }
}

/// An activation: a four-byte variant tag; for the tracing variant, the
/// label length, the label characters and the wrapped activation follow.
pub open spec fn enc_act(a: ActivationFnInfo) -> Seq<u8>
    decreases a,
{
    match a {
        ActivationFnInfo::Identity => spec_u32_to_le_bytes(0),
        ActivationFnInfo::Sigmoid => spec_u32_to_le_bytes(1),
        ActivationFnInfo::DebugPrint { output, activation } => spec_u32_to_le_bytes(2)
            + spec_u64_to_le_bytes(output@.len() as u64) + enc_chars(output@) + enc_act(
            *activation,
        ),
    }
}

/// Scalars back to back, eight little-endian bytes each.
pub open spec fn enc_scalars(s: Seq<u64>) -> Seq<u8>
    decreases s.len(),
{
    if s.len() == 0 {
        Seq::empty()
    } else {
        enc_scalars(s.drop_last()) + spec_u64_to_le_bytes(s.last())
    }
}

/// A scalar vector: its length, then its scalars.
pub open spec fn enc_row(s: Seq<u64>) -> Seq<u8> {
    spec_u64_to_le_bytes(s.len() as u64) + enc_scalars(s)
}

/// The rows of a weight matrix, back to back.
pub open spec fn enc_rows(m: Seq<Seq<u64>>) -> Seq<u8>
    decreases m.len(),
{
    if m.len() == 0 {
        Seq::empty()
    } else {
        enc_rows(m.drop_last()) + enc_row(m.last())
    }
}

/// One layer: its row count, its weight rows, its bias vector, its
/// activation.
pub open spec fn enc_layer(l: LayerV) -> Seq<u8> {
    spec_u64_to_le_bytes(l.weights.len() as u64) + enc_rows(l.weights) + enc_row(l.biases)
        + enc_act(l.activation)
}

/// Layers back to back.
pub open spec fn enc_layers(layers: Seq<LayerV>) -> Seq<u8>
    decreases layers.len(),
{
    if layers.len() == 0 {
        Seq::empty()
    } else {
        enc_layers(layers.drop_last()) + enc_layer(layers.last())
    }
}

/// The whole byte form of a network: the layer count, then every layer.
pub open spec fn spec_encode(layers: Seq<LayerV>) -> Seq<u8> {
    spec_u64_to_le_bytes(layers.len() as u64) + enc_layers(layers)
}

// ---------------------------------------------------------------------------
// The parse of a byte stream, as specification functions.
// ---------------------------------------------------------------------------

/// Eight bytes at `pos`, read little-endian.
pub open spec fn parse_u64(b: Seq<u8>, pos: int) -> Option<(u64, int)> {
    if 0 <= pos && pos + 8 <= b.len() {
        Some((spec_u64_from_le_bytes(b.subrange(pos, pos + 8)), pos + 8))
    } else {
        None
    }
}

/// Four bytes at `pos`, read little-endian.
pub open spec fn parse_u32(b: Seq<u8>, pos: int) -> Option<(u32, int)> {
    if 0 <= pos && pos + 4 <= b.len() {
        Some((spec_u32_from_le_bytes(b.subrange(pos, pos + 4)), pos + 4))
    } else {
        None
    }
}

/// The code point of a character.
pub open spec fn char_code(c: char) -> u32 {
    c as u32
}

/// The character whose code point is `v`, if there is one.
pub open spec fn char_of(v: u32) -> Option<char> {
    if exists|c: char| char_code(c) == v {
        Some(choose|c: char| char_code(c) == v)
    } else {
        None
    }
}

/// `count` characters of four bytes each at `pos`: all code points must be
/// characters.
pub open spec fn parse_chars(b: Seq<u8>, pos: int, count: int) -> Option<(Seq<char>, int)> {
    if 0 <= pos && 0 <= count && pos + 4 * count <= b.len() && (forall|i: int|
        0 <= i < count ==> char_of(
            spec_u32_from_le_bytes(#[trigger] b.subrange(pos + 4 * i, pos + 4 * i + 4)),
        ) is Some) {
        Some(
            (
                Seq::new(
                    count as nat,
                    |i: int|
                        char_of(
                            spec_u32_from_le_bytes(b.subrange(pos + 4 * i, pos + 4 * i + 4)),
                        )->Some_0,
                ),
                pos + 4 * count,
            ),
        )
    } else {
        None
    }
}

/// A label: its character count, then its characters.
pub open spec fn parse_label(b: Seq<u8>, pos: int) -> Option<(Seq<char>, int)> {
    match parse_u64(b, pos) {
        None => None,
        Some((count, p)) => parse_chars(b, p, count as int),
    }
}

/// An activation tag at `pos`.
pub open spec fn parse_act(b: Seq<u8>, pos: int) -> Option<(ActTag, int)>
    decreases b.len() - pos,
{
    match parse_u32(b, pos) {
        None => None,
        Some((tag, p)) => {
            if tag == 0 {
                Some((ActTag::Identity, p))
            } else if tag == 1 {
                Some((ActTag::Sigmoid, p))
            } else if tag == 2 {
                match parse_label(b, p) {
                    None => None,
                    Some((label, p2)) => match parse_act(b, p2) {
                        None => None,
                        Some((inner, p3)) => Some(
                            (ActTag::DebugPrint(label, Box::new(inner)), p3),
                        ),
                    },
                }
            } else {
                None
            }
        },
    }
}

/// `count` scalars of eight bytes each at `pos`.
pub open spec fn parse_scalars(b: Seq<u8>, pos: int, count: int) -> Option<(Seq<u64>, int)> {
    if 0 <= pos && 0 <= count && pos + 8 * count <= b.len() {
        Some(
            (
                Seq::new(
                    count as nat,
                    |i: int| spec_u64_from_le_bytes(b.subrange(pos + 8 * i, pos + 8 * i + 8)),
                ),
                pos + 8 * count,
            ),
        )
    } else {
        None
    }
}

/// A scalar vector: its length, then its scalars.
pub open spec fn parse_row(b: Seq<u8>, pos: int) -> Option<(Seq<u64>, int)> {
    match parse_u64(b, pos) {
        None => None,
        Some((count, p)) => parse_scalars(b, p, count as int),
    }
}

/// `count` weight rows at `pos`.
pub open spec fn parse_rows(b: Seq<u8>, pos: int, count: int) -> Option<(Seq<Seq<u64>>, int)>
    decreases count,
{
    if count <= 0 {
        Some((Seq::empty(), pos))
    } else {
        match parse_rows(b, pos, count - 1) {
            None => None,
            Some((rows, p)) => match parse_row(b, p) {
                None => None,
                Some((row, p2)) => Some((rows.push(row), p2)),
            },
        }
    }
}

/// One layer at `pos`: row count, rows, biases, activation.
pub open spec fn parse_layer(b: Seq<u8>, pos: int) -> Option<(LayerTagV, int)> {
    match parse_u64(b, pos) {
        None => None,
        Some((count, p)) => match parse_rows(b, p, count as int) {
            None => None,
            Some((rows, p2)) => match parse_row(b, p2) {
                None => None,
                Some((biases, p3)) => match parse_act(b, p3) {
                    None => None,
                    Some((act, p4)) => Some(
                        (LayerTagV { weights: rows, biases, activation: act }, p4),
                    ),
                },
            },
        },
    }
}

/// `count` layers at `pos`.
pub open spec fn parse_layers(b: Seq<u8>, pos: int, count: int) -> Option<(Seq<LayerTagV>, int)>
    decreases count,
{
    if count <= 0 {
        Some((Seq::empty(), pos))
    } else {
        match parse_layers(b, pos, count - 1) {
            None => None,
            Some((tags, p)) => match parse_layer(b, p) {
                None => None,
                Some((tag, p2)) => Some((tags.push(tag), p2)),
            },
        }
    }
}

/// What a whole byte stream means: its layer count and layers, accepted
/// only when the count is at least one, the stream is consumed exactly, and
/// the shapes are well formed.
pub open spec fn parse_net(b: Seq<u8>) -> Option<Seq<LayerTagV>> {
    match parse_u64(b, 0) {
        None => None,
        Some((count, p)) => {
            if count == 0 {
                None
            } else {
                match parse_layers(b, p, count as int) {
                    None => None,
                    Some((tags, p2)) => {
                        if p2 == b.len() && wf_tags(tags) {
                            Some(tags)
                        } else {
                            None
                        }
                    },
                }
            }
        },
    }
}

// ---------------------------------------------------------------------------
// Trusted bridge: characters and strings.
// ---------------------------------------------------------------------------

/// Relies on char::from_u32: it returns `Some` exactly on the code points
/// that some character carries, and then the character with that code point
/// — which is what [`char_of`] denotes.
#[verifier::external_body]
fn char_from_u32(v: u32) -> (r: Option<char>)
    ensures
        r == char_of(v),
{
    char::from_u32(v)
}

/// Relies on String::push: it appends the given character to the end of the
/// string and changes nothing else.
#[verifier::external_body]
fn push_char(s: &mut String, c: char)
    ensures
        final(s)@ == old(s)@.push(c),
{
    s.push(c);
}

// ---------------------------------------------------------------------------
// Executable encoder.
// ---------------------------------------------------------------------------

/// `src` appended to `buf`.
fn append_bytes(buf: &mut Vec<u8>, src: &Vec<u8>)
    ensures
        final(buf)@ == old(buf)@ + src@,
{
    let mut i: usize = 0;
    while i < src.len()
        invariant
            i <= src@.len(),
            buf@ == old(buf)@ + src@.take(i as int),
        decreases src@.len() - i,
    {
        buf.push(src[i]);
        proof {
            assert(old(buf)@ + src@.take(i as int) + seq![src@[i as int]] =~= old(buf)@
                + src@.take(i as int + 1));
        }
        i += 1;
    }
    proof {
        assert(old(buf)@ + src@.take(src@.len() as int) =~= old(buf)@ + src@);
    }
}

/// `x` appended to `buf` as eight little-endian bytes.
fn write_u64(buf: &mut Vec<u8>, x: u64)
    ensures
        final(buf)@ == old(buf)@ + spec_u64_to_le_bytes(x),
{
    let bytes = u64_to_le_bytes(x);
    append_bytes(buf, &bytes);
}

/// `x` appended to `buf` as four little-endian bytes.
fn write_u32(buf: &mut Vec<u8>, x: u32)
    ensures
        final(buf)@ == old(buf)@ + spec_u32_to_le_bytes(x),
{
    let bytes = u32_to_le_bytes(x);
    append_bytes(buf, &bytes);
}

/// The label's characters appended to `buf`, four bytes each.
fn write_chars(buf: &mut Vec<u8>, s: &str)
    ensures
        final(buf)@ == old(buf)@ + enc_chars(s@),
{
    let n = s.unicode_len();
    let mut i: usize = 0;
    while i < n
        invariant
            i <= n,
            n == s@.len(),
            buf@ == old(buf)@ + enc_chars(s@.take(i as int)),
        decreases n - i,
    {
        let c = s.get_char(i);
        write_u32(buf, c as u32);
        proof {
            let pre = s@.take(i as int);
            let cur = s@.take(i as int + 1);
            assert(cur.drop_last() =~= pre);
            assert(cur.last() == s@[i as int]);
            assert(enc_chars(cur) == enc_chars(pre) + spec_u32_to_le_bytes(s@[i as int] as u32));
            assert(old(buf)@ + enc_chars(pre) + spec_u32_to_le_bytes(s@[i as int] as u32) =~= old(
                buf,
            )@ + enc_chars(cur));
        }
        i += 1;
    }
    proof {
        assert(s@.take(s@.len() as int) =~= s@);
    }
}

/// The activation appended to `buf` in its byte form.
fn write_act(buf: &mut Vec<u8>, a: &ActivationFnInfo)
    ensures
        final(buf)@ == old(buf)@ + enc_act(*a),
    decreases *a,
{
    match a {
        ActivationFnInfo::Identity => {
            write_u32(buf, 0);
        },
        ActivationFnInfo::Sigmoid => {
            write_u32(buf, 1);
        },
        ActivationFnInfo::DebugPrint { output, activation } => {
            write_u32(buf, 2);
            let n = output.as_str().unicode_len();
            write_u64(buf, n as u64);
            write_chars(buf, output.as_str());
            write_act(buf, activation);
            proof {
                assert(old(buf)@ + spec_u32_to_le_bytes(2) + spec_u64_to_le_bytes(
                    output@.len() as u64,
                ) + enc_chars(output@) + enc_act(**activation) =~= old(buf)@ + enc_act(*a));
            }
        },
    }
}

/// The scalar vector appended to `buf`: its length, then its scalars.
fn write_row(buf: &mut Vec<u8>, row: &Vec<u64>)
    ensures
        final(buf)@ == old(buf)@ + enc_row(row@),
{
    write_u64(buf, row.len() as u64);
    let base = Ghost(buf@);
    let mut i: usize = 0;
    while i < row.len()
        invariant
            i <= row@.len(),
            buf@ == base@ + enc_scalars(row@.take(i as int)),
        decreases row@.len() - i,
    {
        write_u64(buf, row[i]);
        proof {
            let pre = row@.take(i as int);
            let cur = row@.take(i as int + 1);
            assert(cur.drop_last() =~= pre);
            assert(base@ + enc_scalars(pre) + spec_u64_to_le_bytes(row@[i as int]) =~= base@
                + enc_scalars(cur));
        }
        i += 1;
    }
    proof {
        assert(row@.take(row@.len() as int) =~= row@);
        assert(base@ + enc_scalars(row@) =~= old(buf)@ + enc_row(row@));
    }
}

/// The network's byte form: the layer count, then for every layer its row
/// count, weight rows, biases and activation. The result is exactly
/// [`spec_encode`] of the network's value, so equal networks have equal
/// byte forms.
pub fn encode(n: &Network) -> (r: Vec<u8>)
    ensures
        r@ == spec_encode(n@),
{
    let mut buf: Vec<u8> = Vec::new();
    let count = n.num_layers();
    write_u64(&mut buf, count as u64);
    let mut i: usize = 0;
    while i < count
        invariant
            i <= count,
            count == n@.len(),
            buf@ == spec_u64_to_le_bytes(count as u64) + enc_layers(n@.take(i as int)),
        decreases count - i,
    {
        let layer = n.layer(i);
        let ghost lv = n@[i as int];
        let ghost base = buf@;
        let rows = layer.weight_row_count();
        write_u64(&mut buf, rows as u64);
        let mut j: usize = 0;
        while j < rows
            invariant
                j <= rows,
                rows == lv.weights.len(),
                layer@ == lv,
                buf@ == base + spec_u64_to_le_bytes(rows as u64) + enc_rows(
                    lv.weights.take(j as int),
                ),
            decreases rows - j,
        {
            write_row(&mut buf, layer.weight_row(j));
            proof {
                let pre = lv.weights.take(j as int);
                let cur = lv.weights.take(j as int + 1);
                assert(cur.drop_last() =~= pre);
                assert(cur.last() == lv.weights[j as int]);
                assert(base + spec_u64_to_le_bytes(rows as u64) + enc_rows(pre) + enc_row(
                    lv.weights[j as int],
                ) =~= base + spec_u64_to_le_bytes(rows as u64) + enc_rows(cur));
            }
            j += 1;
        }
        proof {
            assert(lv.weights.take(rows as int) =~= lv.weights);
        }
        write_row(&mut buf, layer.bias_vector());
        write_act(&mut buf, layer.activation());
        proof {
            assert(buf@ =~= base + enc_layer(lv));
            let pre = n@.take(i as int);
            let cur = n@.take(i as int + 1);
            assert(cur.drop_last() =~= pre);
            assert(cur.last() == lv);
            assert(base + enc_layer(lv) =~= spec_u64_to_le_bytes(count as u64) + enc_layers(pre)
                + enc_layer(lv));
            assert(buf@ =~= spec_u64_to_le_bytes(count as u64) + enc_layers(cur));
        }
        i += 1;
    }
    proof {
        assert(n@.take(count as int) =~= n@);
    }
    buf
}

// ---------------------------------------------------------------------------
// Executable decoder.
// ---------------------------------------------------------------------------

/// Eight little-endian bytes at `pos`, exactly as [`parse_u64`] reads them.
fn read_u64(b: &Vec<u8>, pos: usize) -> (r: Result<(u64, usize), DecodeError>)
    ensures
        match r {
            Ok((x, p)) => parse_u64(b@, pos as int) == Some((x, p as int)),
            Err(e) => parse_u64(b@, pos as int) is None && e == DecodeError::Truncated,
        },
{
    if b.len() >= 8 && pos <= b.len() - 8 {
        let s = slice_subrange(b.as_slice(), pos, pos + 8);
        let x = u64_from_le_bytes(s);
        Ok((x, pos + 8))
    } else {
        Err(DecodeError::Truncated)
    }
}

/// Four little-endian bytes at `pos`, exactly as [`parse_u32`] reads them.
fn read_u32(b: &Vec<u8>, pos: usize) -> (r: Result<(u32, usize), DecodeError>)
    ensures
        match r {
            Ok((x, p)) => parse_u32(b@, pos as int) == Some((x, p as int)),
            Err(e) => parse_u32(b@, pos as int) is None && e == DecodeError::Truncated,
        },
{
    if b.len() >= 4 && pos <= b.len() - 4 {
        let s = slice_subrange(b.as_slice(), pos, pos + 4);
        let x = u32_from_le_bytes(s);
        Ok((x, pos + 4))
    } else {
        Err(DecodeError::Truncated)
    }
}

/// A label at `pos`, exactly as [`parse_label`] reads it.
fn read_label(b: &Vec<u8>, pos: usize) -> (r: Result<(String, usize), DecodeError>)
    ensures
        match r {
            Ok((s, p)) => parse_label(b@, pos as int) == Some((s@, p as int)) && pos < p
                <= b@.len(),
            Err(e) => parse_label(b@, pos as int) is None && (e == DecodeError::Truncated || e
                == DecodeError::BadChar),
        },
{
    let (count64, start) = match read_u64(b, pos) {
        Ok(v) => v,
        Err(e) => {
            return Err(e);
        },
    };
    if count64 > ((b.len() - start) / 4) as u64 {
        proof {
            assert(4 * (count64 as int) > b@.len() - start) by (nonlinear_arith)
                requires
                    count64 as int > (b@.len() - start) / 4,
                    0 <= start <= b@.len(),
            ;
        }
        return Err(DecodeError::Truncated);
    }
    let count = count64 as usize;
    proof {
        assert(4 * (count as int) <= b@.len() - start) by (nonlinear_arith)
            requires
                count as int <= (b@.len() - start) / 4,
                0 <= start <= b@.len(),
        ;
    }
    let mut s = String::new();
    let mut i: usize = 0;
    while i < count
        invariant
            i <= count,
            count64 == count as u64,
            parse_u64(b@, pos as int) == Some((count64, start as int)),
            start + 4 * count <= b@.len(),
            b@.len() <= usize::MAX,
            forall|m: int|
                0 <= m < i ==> char_of(
                    spec_u32_from_le_bytes(
                        #[trigger] b@.subrange(start + 4 * m, start + 4 * m + 4),
                    ),
                ) is Some,
            s@.len() == i,
            forall|m: int|
                0 <= m < i ==> s@[m] == char_of(
                    spec_u32_from_le_bytes(
                        #[trigger] b@.subrange(start + 4 * m, start + 4 * m + 4),
                    ),
                )->Some_0,
        decreases count - i,
    {
        let v = match read_u32(b, start + 4 * i) {
            Ok((v, _)) => v,
            Err(_) => {
                // the guard above put every character read within bounds
                proof {
                    assert(false);
                }
                return Err(DecodeError::Truncated);
            },
        };
        let c = match char_from_u32(v) {
            Some(c) => c,
            None => {
                proof {
                    let m = i as int;
                    assert(char_of(
                        spec_u32_from_le_bytes(b@.subrange(start + 4 * m, start + 4 * m + 4)),
                    ) is None);
                }
                return Err(DecodeError::BadChar);
            },
        };
        proof {
            let m = i as int;
            assert(Some(c) == char_of(
                spec_u32_from_le_bytes(b@.subrange(start + 4 * m, start + 4 * m + 4)),
            ));
        }
        push_char(&mut s, c);
        i += 1;
    }
    proof {
        let parsed = parse_chars(b@, start as int, count as int);
        assert(parsed is Some);
        assert(s@ =~= parsed->Some_0.0);
    }
    Ok((s, start + 4 * count))
}

/// An activation at `pos`, exactly as [`parse_act`] reads it.
fn read_act(b: &Vec<u8>, pos: usize) -> (r: Result<(ActivationFnInfo, usize), DecodeError>)
    ensures
        match r {
            Ok((a, p)) => parse_act(b@, pos as int) == Some((act_tag(a), p as int)) && pos < p
                <= b@.len(),
            Err(e) => parse_act(b@, pos as int) is None && (e == DecodeError::Truncated || e
                == DecodeError::BadChar || e == DecodeError::UnknownTag),
        },
    decreases b@.len() - pos,
{
    let (tag, p) = match read_u32(b, pos) {
        Ok(v) => v,
        Err(e) => {
            return Err(e);
        },
    };
    if tag == 0 {
        Ok((ActivationFnInfo::Identity, p))
    } else if tag == 1 {
        Ok((ActivationFnInfo::Sigmoid, p))
    } else if tag == 2 {
        let (label, p2) = match read_label(b, p) {
            Ok(v) => v,
            Err(e) => {
                return Err(e);
            },
        };
        let (inner, p3) = match read_act(b, p2) {
            Ok(v) => v,
            Err(e) => {
                return Err(e);
            },
        };
        Ok((ActivationFnInfo::DebugPrint { output: label, activation: Box::new(inner) }, p3))
    } else {
        Err(DecodeError::UnknownTag)
    }
}

/// A scalar vector at `pos`, exactly as [`parse_row`] reads it.
fn read_row(b: &Vec<u8>, pos: usize) -> (r: Result<(Vec<u64>, usize), DecodeError>)
    ensures
        match r {
            Ok((v, p)) => parse_row(b@, pos as int) == Some((v@, p as int)) && pos < p <= b@.len(),
            Err(e) => parse_row(b@, pos as int) is None && e == DecodeError::Truncated,
        },
{
    let (count64, start) = match read_u64(b, pos) {
        Ok(v) => v,
        Err(e) => {
            return Err(e);
        },
    };
    if count64 > ((b.len() - start) / 8) as u64 {
        proof {
            assert(8 * (count64 as int) > b@.len() - start) by (nonlinear_arith)
                requires
                    count64 as int > (b@.len() - start) / 8,
                    0 <= start <= b@.len(),
            ;
        }
        return Err(DecodeError::Truncated);
    }
    let count = count64 as usize;
    proof {
        assert(8 * (count as int) <= b@.len() - start) by (nonlinear_arith)
            requires
                count as int <= (b@.len() - start) / 8,
                0 <= start <= b@.len(),
        ;
    }
    let mut v: Vec<u64> = Vec::new();
    let mut i: usize = 0;
    while i < count
        invariant
            i <= count,
            count64 == count as u64,
            parse_u64(b@, pos as int) == Some((count64, start as int)),
            start + 8 * count <= b@.len(),
            b@.len() <= usize::MAX,
            v@.len() == i,
            forall|m: int|
                0 <= m < i ==> v@[m] == spec_u64_from_le_bytes(
                    #[trigger] b@.subrange(start + 8 * m, start + 8 * m + 8),
                ),
        decreases count - i,
    {
        let x = match read_u64(b, start + 8 * i) {
            Ok((x, _)) => x,
            Err(_) => {
                // the guard above put every scalar read within bounds
                proof {
                    assert(false);
                }
                return Err(DecodeError::Truncated);
            },
        };
        v.push(x);
        i += 1;
    }
    proof {
        let parsed = parse_scalars(b@, start as int, count as int);
        assert(parsed is Some);
        assert(v@ =~= parsed->Some_0.0);
    }
    Ok((v, start + 8 * count))
}

/// One layer at `pos`, exactly as [`parse_layer`] reads it.
fn read_layer(b: &Vec<u8>, pos: usize) -> (r: Result<(Layer, usize), DecodeError>)
    ensures
        match r {
            Ok((l, p)) => parse_layer(b@, pos as int) == Some((layer_tag(l@), p as int)) && pos < p
                <= b@.len(),
            Err(e) => parse_layer(b@, pos as int) is None && e != DecodeError::BadShape && e
                != DecodeError::TrailingBytes,
        },
{
    let (count64, start) = match read_u64(b, pos) {
        Ok(v) => v,
        Err(e) => {
            return Err(e);
        },
    };
    if count64 > ((b.len() - start) / 8) as u64 {
        proof {
            assert(8 * (count64 as int) > b@.len() - start) by (nonlinear_arith)
                requires
                    count64 as int > (b@.len() - start) / 8,
                    0 <= start <= b@.len(),
            ;
            lemma_parse_rows_lower(b@, start as int, count64 as int);
        }
        return Err(DecodeError::Truncated);
    }
    let count = count64 as usize;
    let mut rows: Vec<Vec<u64>> = Vec::new();
    let mut p = start;
    let mut i: usize = 0;
    while i < count
        invariant
            i <= count,
            count64 == count as u64,
            parse_u64(b@, pos as int) == Some((count64, start as int)),
            pos < start,
            start <= p <= b@.len(),
            i > 0 ==> start < p,
            rows@.len() == i,
            parse_rows(b@, start as int, i as int) == Some((matrix_view(rows), p as int)),
        decreases count - i,
    {
        let (row, p2) = match read_row(b, p) {
            Ok(v) => v,
            Err(e) => {
                proof {
                    lemma_parse_rows_stuck(b@, start as int, i as int, count as int, p as int);
                }
                return Err(e);
            },
        };
        rows.push(row);
        proof {
            assert(matrix_view(rows) =~= matrix_view(rows).take(rows@.len() as int));
            let prev = parse_rows(b@, start as int, i as int)->Some_0.0;
            assert(matrix_view(rows) =~= prev.push(row@));
        }
        p = p2;
        i += 1;
    }
    let (biases, p3) = match read_row(b, p) {
        Ok(v) => v,
        Err(e) => {
            return Err(e);
        },
    };
    let (act, p4) = match read_act(b, p3) {
        Ok(v) => v,
        Err(e) => {
            return Err(e);
        },
    };
    let l = Layer::new(rows, biases, act);
    Ok((l, p4))
}

/// How far `count` rows reach at least: eight bytes each.
proof fn lemma_parse_rows_lower(b: Seq<u8>, pos: int, count: int)
    requires
        0 <= count,
    ensures
        parse_rows(b, pos, count) matches Some((rows, p)) ==> p >= pos + 8 * count && rows.len()
            == count && (count > 0 ==> p > pos && p <= b.len()),
    decreases count,
{
    if count > 0 {
        lemma_parse_rows_lower(b, pos, count - 1);
    }
}

/// If the first `i` rows parse up to `p` but the next row does not parse at
/// `p`, then no `count > i` rows parse.
proof fn lemma_parse_rows_stuck(b: Seq<u8>, pos: int, i: int, count: int, p: int)
    requires
        0 <= i < count,
        parse_rows(b, pos, i) matches Some(v) && v.1 == p,
        parse_row(b, p) is None,
    ensures
        parse_rows(b, pos, count) is None,
    decreases count - i,
{
    if count == i + 1 {
    } else {
        lemma_parse_rows_stuck(b, pos, i, count - 1, p);
    }
}

/// How far `count` layers reach at least: twenty bytes each.
proof fn lemma_parse_layers_lower(b: Seq<u8>, pos: int, count: int)
    requires
        0 <= count,
    ensures
        parse_layers(b, pos, count) matches Some((tags, p)) ==> p >= pos + 20 * count && tags.len()
            == count && (count > 0 ==> p <= b.len()),
    decreases count,
{
    if count > 0 {
        lemma_parse_layers_lower(b, pos, count - 1);
        if parse_layers(b, pos, count) is Some {
            let (tags, p0) = parse_layers(b, pos, count - 1)->Some_0;
            lemma_parse_layer_lower(b, p0);
        }
    }
}

/// How far one layer reaches at least: its three counts alone take twenty
/// bytes.
proof fn lemma_parse_layer_lower(b: Seq<u8>, pos: int)
    ensures
        parse_layer(b, pos) matches Some((tag, p)) ==> p >= pos + 20 && p <= b.len(),
{
    if parse_layer(b, pos) is Some {
        let (count, p1) = parse_u64(b, pos)->Some_0;
        lemma_parse_rows_lower(b, p1, count as int);
        let (rows, p2) = parse_rows(b, p1, count as int)->Some_0;
        lemma_parse_act_lower(b, p2 + 8 + 8 * (parse_u64(b, p2)->Some_0.0 as int));
        let (biases, p3) = parse_row(b, p2)->Some_0;
        lemma_parse_act_lower(b, p3);
    }
}

/// How far an activation reaches at least: four bytes.
proof fn lemma_parse_act_lower(b: Seq<u8>, pos: int)
    ensures
        parse_act(b, pos) matches Some((tag, p)) ==> p >= pos + 4 && p <= b.len(),
    decreases b.len() - pos,
{
    if parse_act(b, pos) is Some {
        let (tag, p1) = parse_u32(b, pos)->Some_0;
        if tag == 2 {
            let (label, p2) = parse_label(b, p1)->Some_0;
            lemma_parse_act_lower(b, p2);
        }
    }
}

/// If the first `i` layers parse up to `p` but the next layer does not parse
/// at `p`, then no `count > i` layers parse.
proof fn lemma_parse_layers_stuck(b: Seq<u8>, pos: int, i: int, count: int, p: int)
    requires
        0 <= i < count,
        parse_layers(b, pos, i) matches Some(v) && v.1 == p,
        parse_layer(b, p) is None,
    ensures
        parse_layers(b, pos, count) is None,
    decreases count - i,
{
    if count == i + 1 {
    } else {
        lemma_parse_layers_stuck(b, pos, i, count - 1, p);
    }
}

/// A network's value and its tags are well formed together: the tags carry
/// the same weight and bias shapes.
proof fn lemma_wf_tags_iff(layers: Seq<LayerV>)
    ensures
        wf_tags(net_tag(layers)) <==> crate::network::wf_layers(layers),
{
    let tags = net_tag(layers);
    assert(tags.len() == layers.len());
    if wf_tags(tags) {
        assert forall|i: int|
            0 <= i < layers.len() implies crate::network::wf_layer(
            #[trigger] layers[i],
            crate::network::spec_width_in(layers, i),
        ) by {
            assert(tags[i] == layer_tag(layers[i]));
            if i > 0 {
                assert(tags[i - 1] == layer_tag(layers[i - 1]));
            }
        }
    }
    if crate::network::wf_layers(layers) {
        assert forall|i: int| 0 <= i < tags.len() implies {
            let width = if i == 0 {
                (#[trigger] tags[i]).weights[0].len()
            } else {
                tags[i - 1].biases.len()
            };
            &&& tags[i].weights.len() == tags[i].biases.len()
            &&& tags[i].weights.len() >= 1
            &&& forall|j: int|
                0 <= j < tags[i].weights.len() ==> (#[trigger] tags[i].weights[j]).len() == width
        } by {
            assert(tags[i] == layer_tag(layers[i]));
            if i > 0 {
                assert(tags[i - 1] == layer_tag(layers[i - 1]));
            }
            assert(crate::network::wf_layer(layers[i], crate::network::spec_width_in(layers, i)));
        }
    }
}

/// The network a byte stream means, or why it means none: the layer count
/// and every layer are read back exactly as [`parse_net`] states, the stream
/// must be consumed whole, and the shapes must be well formed. `Ok` comes
/// exactly on the streams that [`parse_net`] accepts, and the returned
/// network carries the parsed tags and is well formed.
pub fn decode(b: &Vec<u8>) -> (r: Result<Network, DecodeError>)
    ensures
        match r {
            Ok(n) => parse_net(b@) == Some(net_tag(n@)) && n.wf(),
            Err(_) => parse_net(b@) is None,
        },
{
    let (count64, start) = match read_u64(b, 0) {
        Ok(v) => v,
        Err(e) => {
            return Err(e);
        },
    };
    if count64 == 0 {
        return Err(DecodeError::BadShape);
    }
    if count64 > ((b.len() - start) / 20) as u64 {
        proof {
            assert(20 * (count64 as int) > b@.len() - start) by (nonlinear_arith)
                requires
                    count64 as int > (b@.len() - start) / 20,
                    0 <= start <= b@.len(),
            ;
            lemma_parse_layers_lower(b@, start as int, count64 as int);
        }
        return Err(DecodeError::Truncated);
    }
    let count = count64 as usize;
    let mut layers: Vec<Layer> = Vec::new();
    let mut p = start;
    let mut i: usize = 0;
    while i < count
        invariant
            i <= count,
            count64 == count as u64,
            count >= 1,
            parse_u64(b@, 0) == Some((count64, start as int)),
            start <= p <= b@.len(),
            layers@.len() == i,
            parse_layers(b@, start as int, i as int) matches Some(v) && v.1 == p as int && v.0
                == Seq::new(i as nat, |m: int| layer_tag(layers@[m]@)),
        decreases count - i,
    {
        let (layer, p2) = match read_layer(b, p) {
            Ok(v) => v,
            Err(e) => {
                proof {
                    lemma_parse_layers_stuck(b@, start as int, i as int, count as int, p as int);
                }
                return Err(e);
            },
        };
        layers.push(layer);
        proof {
            let prev = parse_layers(b@, start as int, i as int)->Some_0.0;
            assert(Seq::new((i + 1) as nat, |m: int| layer_tag(layers@[m]@)) =~= prev.push(
                layer_tag(layer@),
            ));
        }
        p = p2;
        i += 1;
    }
    if p != b.len() {
        return Err(DecodeError::TrailingBytes);
    }
    let n = Network::new(layers);
    proof {
        assert(net_tag(n@) =~= Seq::new(count as nat, |m: int| layer_tag(layers@[m]@))) by {
            assert forall|m: int| 0 <= m < count implies net_tag(n@)[m] == layer_tag(
                layers@[m]@,
            ) by {
                assert(n@[m] == layers@[m]@);
            }
        }
        lemma_wf_tags_iff(n@);
    }
    if !n.check_wf() {
        return Err(DecodeError::BadShape);
    }
    Ok(n)
}

} // verus!
