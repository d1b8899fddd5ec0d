//! The polygon file: a text header that declares 62 float properties per
//! vertex, then the vertices as text lines or as little-endian words.

use crate::encoding::{
    decimal, gather, le_bytes, le_word, lemma_gather_concat, lemma_gather_fixed_width,
    lemma_gather_one, lemma_gather_step, lemma_le_word_of_bytes, lemma_words_bytes_concat,
    push_decimal, push_le, push_words, words_bytes,
};
use crate::error::{io_error_text, ConversionError};
use crate::scene::{
    polygon_names, rest_name_text, scalar_name, text_views, texts, Exporter, GaussianSplat,
    Importer, Scene, SplatText, SplatView,
};
use vstd::prelude::*;
use vstd::string::*;
use vstd::utf8::encode_utf8;

verus! {

pub struct PlyASCIIExporter;

pub struct PlyBinaryExporter;

/// The header line that declares one property.
pub open spec fn property_line(name: Seq<char>) -> Seq<char> {
    "property float "@ + name + "\n"@
}

/// The header of a file of `count` vertices whose body is in `format`.
pub open spec fn header_text(format: Seq<char>, count: nat) -> Seq<char> {
    "ply\nformat "@ + format + " 1.0\nelement vertex "@ + decimal(count) + "\n"@ + gather(
        polygon_names(),
        |name: Seq<char>| property_line(name),
    ) + "end_header\n"@
}

/// The bytes of one vertex in the binary body: its 62 scalars as
/// little-endian words, a missing higher-order coefficient as zero.
pub open spec fn vertex_bytes(splat: SplatView<u32>) -> Seq<u8> {
    words_bytes(splat.polygon_order(0u32))
}

/// The bytes of a binary file that holds `scene`.
pub open spec fn binary_file(scene: Seq<SplatView<u32>>) -> Seq<u8> {
    encode_utf8(header_text("binary_little_endian"@, scene.len())) + binary_body(scene)
}

/// The name of property `i` of [`polygon_names`].
pub fn polygon_name(i: usize) -> (name: String)
    requires
        i < 62,
    ensures
        name@ == polygon_names()[i as int],
{
    if i < 9 {
        String::from_str(scalar_name(i))
    } else if i < 54 {
        rest_name_text(i - 9)
    } else {
        String::from_str(scalar_name(i - 45))
    }
}

/// Builds the header of a file of `count` vertices.
fn header(format: &str, count: usize) -> (text: String)
    ensures
        text@ == header_text(format@, count as nat),
{
    let mut text = String::from_str("ply\nformat ");
    text.append(format);
    text.append(" 1.0\nelement vertex ");
    push_decimal(&mut text, count);
    text.append("\n");
    let ghost start = text@;
    let mut i: usize = 0;
    while i < 62
        invariant
            i <= 62,
            polygon_names().len() == 62,
            text@ == start + gather(
                polygon_names().take(i as int),
                |name: Seq<char>| property_line(name),
            ),
        decreases 62 - i,
    {
        proof {
            lemma_gather_step(polygon_names(), |name: Seq<char>| property_line(name), i as int);
        }
        let name = polygon_name(i);
        text.append("property float ");
        text.append(name.as_str());
        text.append("\n");
        assert(text@ =~= start + gather(
            polygon_names().take(i + 1),
            |name: Seq<char>| property_line(name),
        ));
        i += 1;
    }
    assert(polygon_names().take(62) =~= polygon_names());
    text.append("end_header\n");
    assert(text@ =~= header_text(format@, count as nat));
    text
}

/// Appends the 45 higher-order words of a splat.
fn push_rest_words(out: &mut Vec<u8>, splat: &GaussianSplat)
    ensures
        final(out)@ == old(out)@ + words_bytes(splat@.rest_padded(0u32)),
{
    let n = splat.spherical_harmonics_rest.len();
    let ghost padded = splat@.rest_padded(0u32);
    let mut i: usize = 0;
    while i < 45
        invariant
            i <= 45,
            n == splat.spherical_harmonics_rest@.len(),
            padded == splat@.rest_padded(0u32),
            out@ == old(out)@ + words_bytes(padded.take(i as int)),
        decreases 45 - i,
    {
        proof {
            lemma_gather_step(padded, |w: u32| le_bytes(w), i as int);
        }
        let word: u32 = if i < n {
            splat.spherical_harmonics_rest[i]
        } else {
            0
        };
        push_le(out, word);
        assert(out@ =~= old(out)@ + words_bytes(padded.take(i + 1)));
        i += 1;
    }
    assert(padded.take(45) =~= padded);
}

/// Appends the bytes of one vertex.
fn push_vertex(out: &mut Vec<u8>, splat: &GaussianSplat)
    ensures
        final(out)@ == old(out)@ + vertex_bytes(splat@),
{
    let ghost v = splat@;
    push_words(out, &splat.position);
    push_words(out, &splat.normal);
    push_words(out, &splat.spherical_harmonics_dc);
    push_rest_words(out, splat);
    push_le(out, splat.opacity);
    push_words(out, &splat.scale);
    push_words(out, &splat.rotation);
    proof {
        let a = v.position;
        let b = a + v.normal;
        let c = b + v.spherical_harmonics_dc;
        let d = c + v.rest_padded(0u32);
        let e = d + seq![v.opacity];
        let f = e + v.scale;
        lemma_words_bytes_concat(a, v.normal);
        lemma_words_bytes_concat(b, v.spherical_harmonics_dc);
        lemma_words_bytes_concat(c, v.rest_padded(0u32));
        lemma_words_bytes_concat(d, seq![v.opacity]);
        lemma_words_bytes_concat(e, v.scale);
        lemma_words_bytes_concat(f, v.rotation);
        lemma_gather_one(v.opacity, |w: u32| le_bytes(w));
        assert(out@ =~= old(out)@ + vertex_bytes(v));
    }
}

impl Exporter for PlyBinaryExporter {
    type Source = Scene;

    /// Writes the binary file: the header, then for every splat its 62
    /// scalars, with neither padding nor length prefix. It never fails.
    fn export(scene: &Scene) -> (r: Result<Vec<u8>, ConversionError>)
        ensures
            r is Ok,
            r->Ok_0@ == binary_file(scene@),
    {
        let text = header("binary_little_endian", scene.splats.len());
        let mut bytes: Vec<u8> = Vec::new();
        bytes.extend_from_slice(text.as_str().as_bytes());
        let ghost start = bytes@;
        let mut i: usize = 0;
        while i < scene.splats.len()
            invariant
                i <= scene.splats.len(),
                start == encode_utf8(header_text("binary_little_endian"@, scene@.len())),
                bytes@ == start + gather(
                    scene@.take(i as int),
                    |splat: SplatView<u32>| vertex_bytes(splat),
                ),
            decreases scene.splats.len() - i,
        {
            proof {
                lemma_gather_step(scene@, |splat: SplatView<u32>| vertex_bytes(splat), i as int);
            }
            push_vertex(&mut bytes, &scene.splats[i]);
            assert(bytes@ =~= start + gather(
                scene@.take(i + 1),
                |splat: SplatView<u32>| vertex_bytes(splat),
            ));
            i += 1;
        }
        assert(scene@.take(scene.splats.len() as int) =~= scene@);
        Ok(bytes)
    }
}

/// A value of a text line and the blank that follows it.
pub open spec fn spaced(value: Seq<char>) -> Seq<char> {
    value + " "@
}

/// One line of the text body: the values with a blank between them and a
/// line feed at the end.
pub open spec fn line_text(values: Seq<Seq<char>>) -> Seq<char>
    recommends
        values.len() > 0,
{
    gather(values.drop_last(), |value: Seq<char>| spaced(value)) + values.last() + "\n"@
}

/// The line of one vertex in the text body: its 62 scalars, a missing
/// higher-order coefficient as `0`.
pub open spec fn vertex_line(splat: SplatView<Seq<char>>) -> Seq<char> {
    line_text(splat.polygon_order("0"@))
}

/// The text of a text file that holds `scene`.
pub open spec fn ascii_text(scene: Seq<SplatView<Seq<char>>>) -> Seq<char> {
    header_text("ascii"@, scene.len()) + gather(
        scene,
        |splat: SplatView<Seq<char>>| vertex_line(splat),
    )
}

/// Appends each of `items` with a blank after it.
fn push_spaced(out: &mut String, items: &[String])
    ensures
        final(out)@ == old(out)@ + gather(texts(items@), |value: Seq<char>| spaced(value)),
{
    let mut i: usize = 0;
    while i < items.len()
        invariant
            i <= items.len(),
            out@ == old(out)@ + gather(
                texts(items@).take(i as int),
                |value: Seq<char>| spaced(value),
            ),
        decreases items.len() - i,
    {
        proof {
            lemma_gather_step(texts(items@), |value: Seq<char>| spaced(value), i as int);
        }
        out.append(items[i].as_str());
        out.append(" ");
        assert(out@ =~= old(out)@ + gather(
            texts(items@).take(i + 1),
            |value: Seq<char>| spaced(value),
        ));
        i += 1;
    }
    assert(texts(items@).take(items.len() as int) =~= texts(items@));
}

/// Appends the 45 higher-order values of a splat, each with a blank after
/// it.
fn push_rest_spaced(out: &mut String, splat: &SplatText)
    ensures
        final(out)@ == old(out)@ + gather(
            splat@.rest_padded("0"@),
            |value: Seq<char>| spaced(value),
        ),
{
    let n = splat.spherical_harmonics_rest.len();
    let ghost padded = splat@.rest_padded("0"@);
    let mut i: usize = 0;
    while i < 45
        invariant
            i <= 45,
            n == splat.spherical_harmonics_rest@.len(),
            padded == splat@.rest_padded("0"@),
            out@ == old(out)@ + gather(padded.take(i as int), |value: Seq<char>| spaced(value)),
        decreases 45 - i,
    {
        proof {
            lemma_gather_step(padded, |value: Seq<char>| spaced(value), i as int);
        }
        if i < n {
            out.append(splat.spherical_harmonics_rest[i].as_str());
        } else {
            out.append("0");
        }
        out.append(" ");
        assert(out@ =~= old(out)@ + gather(
            padded.take(i + 1),
            |value: Seq<char>| spaced(value),
        ));
        i += 1;
    }
    assert(padded.take(45) =~= padded);
}

/// Appends the line of one vertex.
fn push_vertex_line(out: &mut String, splat: &SplatText)
    ensures
        final(out)@ == old(out)@ + vertex_line(splat@),
{
    let ghost v = splat@;
    let ghost part = |value: Seq<char>| spaced(value);
    push_spaced(out, &splat.position);
    push_spaced(out, &splat.normal);
    push_spaced(out, &splat.spherical_harmonics_dc);
    push_rest_spaced(out, splat);
    out.append(splat.opacity.as_str());
    out.append(" ");
    push_spaced(out, &splat.scale);
    out.append(splat.rotation[0].as_str());
    out.append(" ");
    out.append(splat.rotation[1].as_str());
    out.append(" ");
    out.append(splat.rotation[2].as_str());
    out.append(" ");
    out.append(splat.rotation[3].as_str());
    out.append("\n");
    proof {
        let a = v.position;
        let b = a + v.normal;
        let c = b + v.spherical_harmonics_dc;
        let d = c + v.rest_padded("0"@);
        let e = d + seq![v.opacity];
        let f = e + v.scale;
        let g = f + seq![v.rotation[0]];
        let h = g + seq![v.rotation[1]];
        let k = h + seq![v.rotation[2]];
        lemma_gather_concat(a, v.normal, part);
        lemma_gather_concat(b, v.spherical_harmonics_dc, part);
        lemma_gather_concat(c, v.rest_padded("0"@), part);
        lemma_gather_concat(d, seq![v.opacity], part);
        lemma_gather_concat(e, v.scale, part);
        lemma_gather_concat(f, seq![v.rotation[0]], part);
        lemma_gather_concat(g, seq![v.rotation[1]], part);
        lemma_gather_concat(h, seq![v.rotation[2]], part);
        lemma_gather_one(v.opacity, part);
        lemma_gather_one(v.rotation[0], part);
        lemma_gather_one(v.rotation[1], part);
        lemma_gather_one(v.rotation[2], part);
        let all = v.polygon_order("0"@);
        assert(all.drop_last() =~= k);
        assert(all.last() == v.rotation[3]);
        assert(out@ =~= old(out)@ + vertex_line(v));
    }
}

impl Exporter for PlyASCIIExporter {
    type Source = Vec<SplatText>;

    /// Writes the text file: the header, then one line per splat with its
    /// 62 scalars. It never fails.
    fn export(scene: &Vec<SplatText>) -> (r: Result<Vec<u8>, ConversionError>)
        ensures
            r is Ok,
            r->Ok_0@ == encode_utf8(ascii_text(text_views(scene@))),
    {
        let mut text = header("ascii", scene.len());
        let ghost start = text@;
        let ghost views = text_views(scene@);
        let mut i: usize = 0;
        while i < scene.len()
            invariant
                i <= scene.len(),
                views == text_views(scene@),
                start == header_text("ascii"@, views.len()),
                text@ == start + gather(
                    views.take(i as int),
                    |splat: SplatView<Seq<char>>| vertex_line(splat),
                ),
            decreases scene.len() - i,
        {
            proof {
                lemma_gather_step(
                    views,
                    |splat: SplatView<Seq<char>>| vertex_line(splat),
                    i as int,
                );
            }
            push_vertex_line(&mut text, &scene[i]);
            assert(text@ =~= start + gather(
                views.take(i + 1),
                |splat: SplatView<Seq<char>>| vertex_line(splat),
            ));
            i += 1;
        }
        assert(views.take(scene.len() as int) =~= views);
        let mut bytes: Vec<u8> = Vec::new();
        bytes.extend_from_slice(text.as_str().as_bytes());
        Ok(bytes)
    }
}

pub struct PlyImporter;

/// A parsed polygon file, as `ply_rs` holds it.
#[verifier::external_body]
pub struct PlyDocument {
    inner: ply_rs::ply::Ply<ply_rs::ply::DefaultElement>,
}

/// One element of a file: the bit pattern of each of its properties of type
/// float, by the property's name. Properties of other types are left out.
pub type Floats = Map<Seq<char>, u32>;

/// What a parsed file holds: for each element name, the elements of that
/// name in file order.
pub uninterp spec fn document_elements(doc: PlyDocument) -> Map<Seq<char>, Seq<Floats>>;

/// What `ply_rs` makes of the bytes of a file, or `None` where it refuses
/// them.
pub uninterp spec fn parsed_elements(bytes: Seq<u8>) -> Option<Map<Seq<char>, Seq<Floats>>>;

/// Whether `b` is an ASCII digit.
pub open spec fn is_digit(b: u8) -> bool {
    48 <= b <= 57
}

/// Whether a line starts at `at`.
pub open spec fn is_line_start(bytes: Seq<u8>, at: int) -> bool {
    at == 0 || (0 < at <= bytes.len() && bytes[at - 1] == 10)
}

/// Whether the line that closes the header starts at `at`.
pub open spec fn closes_header(bytes: Seq<u8>, at: int) -> bool {
    &&& is_line_start(bytes, at)
    &&& 0 <= at
    &&& at + 10 <= bytes.len()
    &&& bytes.subrange(at, at + 10) == encode_utf8("end_header"@)
}

/// Where the header stops, looking from `from` on: at the first line that
/// closes it, or at the end of the bytes.
pub open spec fn header_end_from(bytes: Seq<u8>, from: int) -> int
    decreases bytes.len() - from,
{
    if from >= bytes.len() {
        bytes.len() as int
    } else if closes_header(bytes, from) {
        from
    } else {
        header_end_from(bytes, from + 1)
    }
}

/// Whether the 20 bytes from `start` on are all digits.
pub open spec fn twenty_digits(bytes: Seq<u8>, start: int) -> bool {
    forall|k: int| start <= k < start + 20 ==> is_digit(#[trigger] bytes[k])
}

/// Whether every number of the header can be read: no 20 digits stand in a
/// row before the line that closes it. A number of fewer digits fits in 64
/// bits.
pub open spec fn header_numbers_fit(bytes: Seq<u8>) -> bool {
    forall|start: int|
        0 <= start && start + 20 <= header_end_from(bytes, 0) ==> !#[trigger] twenty_digits(
            bytes,
            start,
        )
}

/// `ply_rs::parser::Parser::<DefaultElement>::read_ply` on a reader over
/// `bytes`. The grammar of a header line unwraps the parse of each number
/// into 64 bits, so the `requires` leaves out headers with longer numbers.
/// The contract names what comes back, as a function of the bytes, and ties
/// the document to that name. An element is read as often as the header
/// says, so the memory that the call takes grows with the counts in the
/// header.
#[verifier::external_body]
fn read_document(bytes: &[u8]) -> (r: Result<PlyDocument, std::io::Error>)
    requires
        header_numbers_fit(bytes@),
    ensures
        match r {
            Ok(doc) => parsed_elements(bytes@) == Some(document_elements(doc)),
            Err(_) => parsed_elements(bytes@) is None,
        },
{
    let mut source = bytes;
    let parser = ply_rs::parser::Parser::<ply_rs::ply::DefaultElement>::new();
    parser.read_ply(&mut source).map(|inner| PlyDocument { inner })
}

/// `get` on the payload of a `ply_rs` document, then `len`: how many
/// elements of the given name the file holds, if it declares the name.
#[verifier::external_body]
fn element_count(doc: &PlyDocument, element: &str) -> (n: Option<usize>)
    ensures
        n is Some <==> document_elements(*doc).dom().contains(element@),
        n is Some ==> n->Some_0 == document_elements(*doc)[element@].len(),
{
    doc.inner.payload.get(element).map(|list| list.len())
}

/// `get` on one element of a `ply_rs` document: the bit pattern of the
/// property `name` where the element has it as `Property::Float`, else
/// `None`.
#[verifier::external_body]
fn float_property(doc: &PlyDocument, element: &str, index: usize, name: &str) -> (value: Option<
    u32,
>)
    requires
        document_elements(*doc).dom().contains(element@),
        index < document_elements(*doc)[element@].len(),
    ensures
        value == lookup(document_elements(*doc)[element@][index as int], name@),
{
    match doc.inner.payload[element][index].get(name) {
        Some(ply_rs::ply::Property::Float(v)) => Some(v.to_bits()),
        _ => None,
    }
}

/// The value of `name` in `floats`, if it has one.
pub open spec fn lookup(floats: Floats, name: Seq<char>) -> Option<u32> {
    if floats.dom().contains(name) {
        Some(floats[name])
    } else {
        None
    }
}

/// The value of `name` in `floats`, zero where it has none.
pub open spec fn float_or_zero(floats: Floats, name: Seq<char>) -> u32 {
    match lookup(floats, name) {
        Some(bits) => bits,
        None => 0u32,
    }
}

/// The splat that a vertex stands for: each scalar is looked up by its
/// name, and is zero where the vertex has no float of that name.
pub open spec fn vertex_splat(floats: Floats) -> SplatView<u32> {
    let values = polygon_names().map_values(|name: Seq<char>| float_or_zero(floats, name));
    SplatView {
        position: values.subrange(0, 3),
        normal: values.subrange(3, 6),
        spherical_harmonics_dc: values.subrange(6, 9),
        spherical_harmonics_rest: values.subrange(9, 54),
        opacity: values[54],
        scale: values.subrange(55, 58),
        rotation: values.subrange(58, 62),
    }
}

/// Whether the line that closes the header starts at `at`.
fn closes_header_at(bytes: &[u8], at: usize) -> (closes: bool)
    requires
        at <= bytes.len(),
    ensures
        closes == closes_header(bytes@, at as int),
{
    let word = "end_header".as_bytes();
    proof {
        reveal_strlit("end_header");
        vstd::utf8::is_ascii_chars_encode_utf8("end_header"@);
    }
    assert(word@.len() == 10);
    if at > 0 && bytes[at - 1] != 10 {
        return false;
    }
    if bytes.len() - at < 10 {
        return false;
    }
    let mut k: usize = 0;
    while k < 10
        invariant
            k <= 10,
            at + 10 <= bytes.len(),
            word@.len() == 10,
            word@ == encode_utf8("end_header"@),
            forall|j: int| 0 <= j < k ==> bytes@[at + j] == word@[j],
        decreases 10 - k,
    {
        if bytes[at + k] != word[k] {
            assert(bytes@.subrange(at as int, at + 10)[k as int] != word@[k as int]);
            return false;
        }
        k += 1;
    }
    assert(bytes@.subrange(at as int, at + 10) =~= word@);
    true
}

/// Whether every number of the header can be read.
fn check_header_numbers(bytes: &[u8]) -> (fit: bool)
    ensures
        fit == header_numbers_fit(bytes@),
{
    let mut run: usize = 0;
    let mut i: usize = 0;
    while i < bytes.len()
        invariant
            i <= bytes.len(),
            run <= i,
            run < 20,
            header_end_from(bytes@, 0) == header_end_from(bytes@, i as int),
            forall|k: int| i - run <= k < i ==> is_digit(#[trigger] bytes@[k]),
            run < i ==> !is_digit(bytes@[i - run - 1]),
            forall|start: int|
                0 <= start && start + 20 <= i ==> !#[trigger] twenty_digits(bytes@, start),
        decreases bytes.len() - i,
    {
        if closes_header_at(bytes, i) {
            return true;
        }
        let b = bytes[i];
        if 48 <= b && b <= 57 {
            run += 1;
            if run >= 20 {
                assert(twenty_digits(bytes@, i - 19));
                assert(header_end_from(bytes@, i as int) >= i + 1) by {
                    lemma_header_end_bounds(bytes@, i + 1);
                }
                return false;
            }
        } else {
            run = 0;
        }
        proof {
            assert forall|start: int| 0 <= start && start + 20 <= i + 1 implies !#[trigger]
            twenty_digits(bytes@, start) by {
                if start + 20 == i + 1 {
                    if run == 0 {
                        assert(!is_digit(bytes@[i as int]));
                    } else {
                        assert(!is_digit(bytes@[i - run]));
                    }
                }
            }
        }
        i += 1;
    }
    true
}

/// The header stops between the place the search starts from and the end
/// of the bytes.
proof fn lemma_header_end_bounds(bytes: Seq<u8>, from: int)
    requires
        0 <= from <= bytes.len(),
    ensures
        from <= header_end_from(bytes, from) <= bytes.len(),
    decreases bytes.len() - from,
{
    if from < bytes.len() && !closes_header(bytes, from) {
        lemma_header_end_bounds(bytes, from + 1);
    }
}

/// The scene that the vertices of a file stand for.
pub open spec fn vertices_scene(vertices: Seq<Floats>) -> Seq<SplatView<u32>> {
    vertices.map_values(|floats: Floats| vertex_splat(floats))
}

impl PlyImporter {
    /// The splat of vertex `index` of a document.
    fn vertex(doc: &PlyDocument, index: usize) -> (splat: GaussianSplat)
        requires
            document_elements(*doc).dom().contains("vertex"@),
            index < document_elements(*doc)["vertex"@].len(),
        ensures
            splat@ == vertex_splat(document_elements(*doc)["vertex"@][index as int]),
            splat@.well_formed(),
    {
        let ghost floats = document_elements(*doc)["vertex"@][index as int];
        let ghost wanted = polygon_names().map_values(
            |name: Seq<char>| float_or_zero(floats, name),
        );
        let mut values: Vec<u32> = Vec::new();
        let mut i: usize = 0;
        while i < 62
            invariant
                i <= 62,
                document_elements(*doc).dom().contains("vertex"@),
                index < document_elements(*doc)["vertex"@].len(),
                floats == document_elements(*doc)["vertex"@][index as int],
                wanted == polygon_names().map_values(
                    |name: Seq<char>| float_or_zero(floats, name),
                ),
                values@ == wanted.take(i as int),
            decreases 62 - i,
        {
            let name = polygon_name(i);
            let value: u32 = match float_property(doc, "vertex", index, name.as_str()) {
                Some(bits) => bits,
                None => 0,
            };
            values.push(value);
            assert(values@ =~= wanted.take(i + 1));
            i += 1;
        }
        assert(wanted.take(62) =~= wanted);
        let mut rest: Vec<u32> = Vec::new();
        let mut j: usize = 9;
        while j < 54
            invariant
                9 <= j <= 54,
                values@.len() == 62,
                rest@ == values@.subrange(9, j as int),
            decreases 54 - j,
        {
            rest.push(values[j]);
            assert(rest@ =~= values@.subrange(9, j + 1));
            j += 1;
        }
        let splat = GaussianSplat {
            position: [values[0], values[1], values[2]],
            normal: [values[3], values[4], values[5]],
            spherical_harmonics_dc: [values[6], values[7], values[8]],
            spherical_harmonics_rest: rest,
            opacity: values[54],
            scale: [values[55], values[56], values[57]],
            rotation: [values[58], values[59], values[60], values[61]],
        };
        proof {
            let v = splat@;
            let w = vertex_splat(floats);
            assert(v.position =~= w.position);
            assert(v.normal =~= w.normal);
            assert(v.spherical_harmonics_dc =~= w.spherical_harmonics_dc);
            assert(v.scale =~= w.scale);
            assert(v.rotation =~= w.rotation);
        }
        splat
    }

    /// The scene of a parsed file: one splat per vertex, in file order. A
    /// file without a `vertex` element is refused, whatever else it holds.
    pub fn scene_from_document(doc: &PlyDocument) -> (r: Result<Scene, ConversionError>)
        ensures
            document_elements(*doc).dom().contains("vertex"@) ==> r is Ok && r->Ok_0@
                == vertices_scene(document_elements(*doc)["vertex"@]),
            !document_elements(*doc).dom().contains("vertex"@) ==> r is Err && r->Err_0
                is ParseError && r->Err_0->ParseError_format@ == "PLY"@
                && r->Err_0->ParseError_message@ == "Missing \"vertex\" element in PLY file"@,
    {
        let count = match element_count(doc, "vertex") {
            Some(count) => count,
            None => {
                return Err(
                    ConversionError::parse("PLY", "Missing \"vertex\" element in PLY file"),
                );
            },
        };
        let ghost vertices = document_elements(*doc)["vertex"@];
        let mut splats: Vec<GaussianSplat> = Vec::new();
        let mut i: usize = 0;
        while i < count
            invariant
                i <= count,
                document_elements(*doc).dom().contains("vertex"@),
                vertices == document_elements(*doc)["vertex"@],
                count == vertices.len(),
                splats@.map_values(|s: GaussianSplat| s@) == vertices_scene(vertices).take(
                    i as int,
                ),
            decreases count - i,
        {
            let splat = Self::vertex(doc, i);
            let ghost before = splats@.map_values(|s: GaussianSplat| s@);
            splats.push(splat);
            assert(splats@.map_values(|s: GaussianSplat| s@) =~= before.push(splat@));
            assert(before.push(splat@) =~= vertices_scene(vertices).take(i + 1));
            i += 1;
        }
        assert(vertices_scene(vertices).take(count as int) =~= vertices_scene(vertices));
        Ok(Scene { splats })
    }
}

impl PlyImporter {
    /// Parses a text or binary file with `ply_rs`. The file is refused with
    /// a parse error where a header number is too long to be read, and
    /// where `ply_rs` refuses it.
    pub fn read(bytes: &[u8]) -> (r: Result<PlyDocument, ConversionError>)
        ensures
            match readable_elements(bytes@) {
                Some(elements) => r is Ok && document_elements(r->Ok_0) == elements,
                None => r is Err && r->Err_0 is ParseError && r->Err_0->ParseError_format@
                    == "PLY"@,
            },
            !header_numbers_fit(bytes@) ==> r->Err_0->ParseError_message@
                == "A number in the header is too long"@,
    {
        if !check_header_numbers(bytes) {
            return Err(ConversionError::parse("PLY", "A number in the header is too long"));
        }
        match read_document(bytes) {
            Ok(doc) => Ok(doc),
            Err(e) => {
                let message = io_error_text(&e);
                Err(ConversionError::ParseError { format: String::from_str("PLY"), message })
            },
        }
    }
}

impl Importer for PlyImporter {
    type Source = [u8];

    type Decoded = Scene;

    /// Decodes a text or binary file. The file is refused with a parse
    /// error where a header number is too long to be read, where `ply_rs`
    /// refuses it, and where it has no `vertex` element; else the scene has
    /// one splat per vertex, in file order.
    fn import(bytes: &[u8]) -> (r: Result<Scene, ConversionError>)
        ensures
            match decoded_vertices(bytes@) {
                Some(vertices) => r is Ok && r->Ok_0@ == vertices_scene(vertices),
                None => r is Err && r->Err_0 is ParseError && r->Err_0->ParseError_format@
                    == "PLY"@,
            },
            !header_numbers_fit(bytes@) ==> r->Err_0->ParseError_message@
                == "A number in the header is too long"@,
            readable_elements(bytes@) is Some && decoded_vertices(bytes@) is None
                ==> r->Err_0->ParseError_message@ == "Missing \"vertex\" element in PLY file"@,
    {
        match PlyImporter::read(bytes) {
            Ok(doc) => PlyImporter::scene_from_document(&doc),
            Err(e) => Err(e),
        }
    }
}

/// What a file is parsed to, or `None` where it is refused: where a header
/// number is too long, and where `ply_rs` refuses the bytes.
pub open spec fn readable_elements(bytes: Seq<u8>) -> Option<Map<Seq<char>, Seq<Floats>>> {
    if header_numbers_fit(bytes) {
        parsed_elements(bytes)
    } else {
        None
    }
}

/// The vertices that a file is decoded to, or `None` where it is refused:
/// where it cannot be parsed, and where it has no `vertex` element.
pub open spec fn decoded_vertices(bytes: Seq<u8>) -> Option<Seq<Floats>> {
    match readable_elements(bytes) {
        Some(elements) => if elements.dom().contains("vertex"@) {
            Some(elements["vertex"@])
        } else {
            None
        },
        None => None,
    }
}

/// The binary body of a scene.
pub open spec fn binary_body(scene: Seq<SplatView<u32>>) -> Seq<u8> {
    gather(scene, |splat: SplatView<u32>| vertex_bytes(splat))
}

/// Whether every splat of the scene has the shape of a decoded splat.
pub open spec fn all_well_formed(scene: Seq<SplatView<u32>>) -> bool {
    forall|i: int| 0 <= i < scene.len() ==> (#[trigger] scene[i]).well_formed()
}

/// The 62 scalars of a well-formed splat are its own: nothing is cut off
/// and nothing filled in. They take 248 bytes, and scalar `k` is the word
/// at `4 * k`.
pub proof fn lemma_vertex_keeps_every_scalar(splat: SplatView<u32>)
    requires
        splat.well_formed(),
    ensures
        splat.rest_padded(0u32) == splat.spherical_harmonics_rest,
        splat.polygon_order(0u32).len() == 62,
        vertex_bytes(splat).len() == 248,
        forall|k: int|
            0 <= k < 62 ==> le_word(vertex_bytes(splat), 4 * k) == #[trigger] splat.polygon_order(
                0u32,
            )[k],
{
    assert(splat.rest_padded(0u32) =~= splat.spherical_harmonics_rest);
    let words = splat.polygon_order(0u32);
    let part = |w: u32| le_bytes(w);
    lemma_gather_fixed_width(words, part, 4);
    let bytes = vertex_bytes(splat);
    assert forall|k: int| 0 <= k < 62 implies le_word(bytes, 4 * k) == #[trigger] words[k] by {
        assert(bytes.subrange(k * 4, k * 4 + 4) == le_bytes(words[k]));
        lemma_le_word_of_bytes(words[k]);
        let cut = bytes.subrange(4 * k, 4 * k + 4);
        assert(cut[0] == bytes[4 * k] && cut[1] == bytes[4 * k + 1] && cut[2] == bytes[4 * k + 2]
            && cut[3] == bytes[4 * k + 3]);
    }
}

/// In the binary body of a well-formed scene every scalar stands bit for
/// bit: scalar `k` of splat `i` is the little-endian word at
/// `248 * i + 4 * k`.
pub proof fn lemma_binary_body_keeps_every_scalar(scene: Seq<SplatView<u32>>, i: int, k: int)
    requires
        all_well_formed(scene),
        0 <= i < scene.len(),
        0 <= k < 62,
    ensures
        binary_body(scene).len() == 248 * scene.len(),
        le_word(binary_body(scene), 248 * i + 4 * k) == scene[i].polygon_order(0u32)[k],
{
    let part = |splat: SplatView<u32>| vertex_bytes(splat);
    assert forall|j: int| 0 <= j < scene.len() implies (#[trigger] part(scene[j])).len()
        == 248 by {
        lemma_vertex_keeps_every_scalar(scene[j]);
    }
    lemma_gather_fixed_width(scene, part, 248);
    let body = binary_body(scene);
    assert(body.len() == 248 * scene.len()) by {
        assert(scene.len() * 248 == 248 * scene.len());
    }
    let cut = body.subrange(i * 248, i * 248 + 248);
    assert(cut == vertex_bytes(scene[i]));
    lemma_vertex_keeps_every_scalar(scene[i]);
    assert(scene[i].polygon_order(0u32)[k] == le_word(cut, 4 * k));
    assert(cut[4 * k] == body[248 * i + 4 * k] && cut[4 * k + 1] == body[248 * i + 4 * k + 1]
        && cut[4 * k + 2] == body[248 * i + 4 * k + 2] && cut[4 * k + 3] == body[248 * i + 4 * k
        + 3]);
}

/// A well-formed splat is given by its 62 scalars.
proof fn lemma_scalars_determine_splat(a: SplatView<u32>, b: SplatView<u32>)
    requires
        a.well_formed(),
        b.well_formed(),
        a.polygon_order(0u32) == b.polygon_order(0u32),
    ensures
        a == b,
{
    lemma_vertex_keeps_every_scalar(a);
    lemma_vertex_keeps_every_scalar(b);
    let wa = a.polygon_order(0u32);
    let wb = b.polygon_order(0u32);
    assert(a.position =~= wa.subrange(0, 3));
    assert(b.position =~= wb.subrange(0, 3));
    assert(a.normal =~= wa.subrange(3, 6));
    assert(b.normal =~= wb.subrange(3, 6));
    assert(a.spherical_harmonics_dc =~= wa.subrange(6, 9));
    assert(b.spherical_harmonics_dc =~= wb.subrange(6, 9));
    assert(a.spherical_harmonics_rest =~= wa.subrange(9, 54));
    assert(b.spherical_harmonics_rest =~= wb.subrange(9, 54));
    assert(a.opacity == wa[54]);
    assert(b.opacity == wb[54]);
    assert(a.scale =~= wa.subrange(55, 58));
    assert(b.scale =~= wb.subrange(55, 58));
    assert(a.rotation =~= wa.subrange(58, 62));
    assert(b.rotation =~= wb.subrange(58, 62));
}

/// Two well-formed scenes with the same binary body are the same scene: the
/// body loses nothing.
pub proof fn lemma_binary_body_determines_scene(a: Seq<SplatView<u32>>, b: Seq<SplatView<u32>>)
    requires
        all_well_formed(a),
        all_well_formed(b),
        binary_body(a) == binary_body(b),
    ensures
        a == b,
{
    if a.len() > 0 {
        lemma_binary_body_keeps_every_scalar(a, 0, 0);
    } else {
        assert(binary_body(a).len() == 0);
    }
    if b.len() > 0 {
        lemma_binary_body_keeps_every_scalar(b, 0, 0);
    } else {
        assert(binary_body(b).len() == 0);
    }
    assert(a.len() == b.len());
    assert forall|i: int| 0 <= i < a.len() implies a[i] == b[i] by {
        lemma_vertex_keeps_every_scalar(a[i]);
        lemma_vertex_keeps_every_scalar(b[i]);
        assert forall|k: int| 0 <= k < 62 implies a[i].polygon_order(0u32)[k]
            == b[i].polygon_order(0u32)[k] by {
            lemma_binary_body_keeps_every_scalar(a, i, k);
            lemma_binary_body_keeps_every_scalar(b, i, k);
        }
        assert(a[i].polygon_order(0u32) =~= b[i].polygon_order(0u32));
        lemma_scalars_determine_splat(a[i], b[i]);
    }
    assert(a =~= b);
}

} // verus!
