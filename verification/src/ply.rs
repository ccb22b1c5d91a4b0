//! The PLY mesh format: its header, and the vertices and triangles of an
//! ASCII or binary body.
//!
//! A file is read from a byte string. Vertex coordinates come out as they
//! stand in the file (`PlyNumber`): turning them into scalars is the caller's
//! part. Faces come out as indices into the vertices read so far.
//!
//! Lengths and indices are whole numbers. Where an ASCII body gives one as a
//! word of a floating type, its whole part is the caller's to say: the
//! reader asks for it with `PlyError::NeedsWhole`, and the caller reads
//! again with that whole part among those it hands over (`Whole`).

use crate::endian::{u16_at, u32_at, u64_at, unsigned_at};
use crate::text::{
    ascii, copy_range, line_end, next_line, parse_usize, parse_usize_spec, spells, split,
    split_on, trim, trimmed, views, is_space,
};
use crate::whole::{count_of_double, count_of_single, double_to_count, single_to_count};
use vstd::prelude::*;

verus! {

/// How the body of a file is written.
#[derive(Debug, Copy, Clone, PartialEq, Eq, Structural)]
pub enum Format {
    Ascii,
    BinaryLE,
    BinaryBE,
}

/// The type of one number of the body.
#[derive(Debug, Copy, Clone, PartialEq, Eq, Structural)]
pub enum DataType {
    Char,
    UChar,
    Short,
    UShort,
    Int,
    UInt,
    Float,
    Double,
}

/// One property of an element: a single number, or a list of numbers that
/// follows its own length.
#[derive(Debug, Clone)]
pub enum Property {
    Field(Vec<u8>, DataType),
    List(Vec<u8>, DataType, DataType),
}

/// One element of the header: its name, how many rows the body holds of it,
/// and what each row is made of.
#[derive(Debug, Clone)]
pub struct Element {
    pub name: Vec<u8>,
    pub count: usize,
    pub properties: Vec<Property>,
}

/// What a header declares.
#[derive(Debug, Clone)]
pub struct PlyDescription {
    pub format: Format,
    pub elements: Vec<Element>,
}

/// Why a file was not read.
#[derive(Debug, Clone)]
pub enum PlyError {
    /// The first line is not `ply`.
    InvalidFile,
    /// A `format` line names no known format and version; it holds the two
    /// words, empty where one is missing.
    InvalidFormat(Vec<u8>, Vec<u8>),
    /// A `property` line lacks a known type or a name; it holds the line.
    InvalidProperty(Vec<u8>),
    /// An `element` line lacks a name or a count; it holds the line.
    InvalidElement(Vec<u8>),
    /// The file ends inside the header or inside a number of the body.
    UnexpectedEof,
    /// A list length or a vertex index is a negative integer, or a word
    /// of an integer type that spells no unsigned integer.
    InvalidNumber,
    /// A list length or a vertex index of a floating type stands in an
    /// ASCII body, and its whole part was not handed over: it holds the
    /// position at which the number was looked for, and the word.
    NeedsWhole(usize, Vec<u8>),
    /// A triangle names a vertex that has not been read.
    MissingVertex,
}

/// The mathematical content of a `Property`.
pub enum PropertyModel {
    Field(Seq<u8>, DataType),
    List(Seq<u8>, DataType, DataType),
}

/// The mathematical content of an `Element`.
pub struct ElementModel {
    pub name: Seq<u8>,
    pub count: usize,
    pub properties: Seq<PropertyModel>,
}

/// The mathematical content of a `PlyDescription`.
pub struct DescriptionModel {
    pub format: Format,
    pub elements: Seq<ElementModel>,
}

/// The mathematical content of a `PlyError`.
pub enum PlyErrorModel {
    InvalidFile,
    InvalidFormat(Seq<u8>, Seq<u8>),
    InvalidProperty(Seq<u8>),
    InvalidElement(Seq<u8>),
    UnexpectedEof,
    InvalidNumber,
    NeedsWhole(int, Seq<u8>),
    MissingVertex,
}

impl View for Property {
    type V = PropertyModel;

    open spec fn view(&self) -> PropertyModel {
        match *self {
            Property::Field(name, kind) => PropertyModel::Field(name@, kind),
            Property::List(name, count_kind, kind) => PropertyModel::List(name@, count_kind, kind),
        }
    }
}

impl View for Element {
    type V = ElementModel;

    open spec fn view(&self) -> ElementModel {
        ElementModel {
            name: self.name@,
            count: self.count,
            properties: Seq::new(self.properties@.len(), |i: int| self.properties@[i]@),
        }
    }
}

impl View for PlyDescription {
    type V = DescriptionModel;

    open spec fn view(&self) -> DescriptionModel {
        DescriptionModel {
            format: self.format,
            elements: Seq::new(self.elements@.len(), |i: int| self.elements@[i]@),
        }
    }
}

impl View for PlyError {
    type V = PlyErrorModel;

    open spec fn view(&self) -> PlyErrorModel {
        match *self {
            PlyError::InvalidFile => PlyErrorModel::InvalidFile,
            PlyError::InvalidFormat(format, version) => PlyErrorModel::InvalidFormat(
                format@,
                version@,
            ),
            PlyError::InvalidProperty(line) => PlyErrorModel::InvalidProperty(line@),
            PlyError::InvalidElement(line) => PlyErrorModel::InvalidElement(line@),
            PlyError::UnexpectedEof => PlyErrorModel::UnexpectedEof,
            PlyError::InvalidNumber => PlyErrorModel::InvalidNumber,
            PlyError::NeedsWhole(at, word) => PlyErrorModel::NeedsWhole(at as int, word@),
            PlyError::MissingVertex => PlyErrorModel::MissingVertex,
        }
    }
}

impl DescriptionModel {
    /// A description of an ASCII file without elements.
    pub open spec fn empty() -> DescriptionModel {
        DescriptionModel { format: Format::Ascii, elements: Seq::empty() }
    }

    /// This description with one more element, which has no property yet.
    pub open spec fn add_element(self, name: Seq<u8>, count: usize) -> DescriptionModel {
        DescriptionModel {
            format: self.format,
            elements: self.elements.push(ElementModel { name, count, properties: Seq::empty() }),
        }
    }

    /// This description with one more property on its last element; the
    /// description itself where it has no element.
    pub open spec fn add_property(self, property: PropertyModel) -> DescriptionModel {
        if self.elements.len() == 0 {
            self
        } else {
            let last = self.elements.last();
            DescriptionModel {
                format: self.format,
                elements: self.elements.drop_last().push(
                    ElementModel {
                        name: last.name,
                        count: last.count,
                        properties: last.properties.push(property),
                    },
                ),
            }
        }
    }

    /// This description with another format.
    pub open spec fn with_format(self, format: Format) -> DescriptionModel {
        DescriptionModel { format, elements: self.elements }
    }
}

/// The type that a word of the header names.
pub open spec fn data_type_of(word: Seq<u8>) -> Option<DataType> {
    if word == ascii("char") || word == ascii("int8") {
        Some(DataType::Char)
    } else if word == ascii("uchar") || word == ascii("uint8") {
        Some(DataType::UChar)
    } else if word == ascii("short") || word == ascii("int16") {
        Some(DataType::Short)
    } else if word == ascii("ushort") || word == ascii("uint16") {
        Some(DataType::UShort)
    } else if word == ascii("int") || word == ascii("int32") {
        Some(DataType::Int)
    } else if word == ascii("uint") || word == ascii("uint32") {
        Some(DataType::UInt)
    } else if word == ascii("float") || word == ascii("float32") {
        Some(DataType::Float)
    } else if word == ascii("double") || word == ascii("float64") {
        Some(DataType::Double)
    } else {
        None
    }
}

impl DataType {
    /// The type that `word` names, where it names one.
    pub fn from_word(word: &[u8]) -> (r: Option<DataType>)
        ensures
            r == data_type_of(word@),
    {
        proof {
            reveal_strlit("char");
            reveal_strlit("int8");
            reveal_strlit("uchar");
            reveal_strlit("uint8");
            reveal_strlit("short");
            reveal_strlit("int16");
            reveal_strlit("ushort");
            reveal_strlit("uint16");
            reveal_strlit("int");
            reveal_strlit("int32");
            reveal_strlit("uint");
            reveal_strlit("uint32");
            reveal_strlit("float");
            reveal_strlit("float32");
            reveal_strlit("double");
            reveal_strlit("float64");
        }
        if spells(word, "char") || spells(word, "int8") {
            Some(DataType::Char)
        } else if spells(word, "uchar") || spells(word, "uint8") {
            Some(DataType::UChar)
        } else if spells(word, "short") || spells(word, "int16") {
            Some(DataType::Short)
        } else if spells(word, "ushort") || spells(word, "uint16") {
            Some(DataType::UShort)
        } else if spells(word, "int") || spells(word, "int32") {
            Some(DataType::Int)
        } else if spells(word, "uint") || spells(word, "uint32") {
            Some(DataType::UInt)
        } else if spells(word, "float") || spells(word, "float32") {
            Some(DataType::Float)
        } else if spells(word, "double") || spells(word, "float64") {
            Some(DataType::Double)
        } else {
            None
        }
    }
}

impl PlyDescription {
    /// A description of an ASCII file without elements.
    pub fn new() -> (d: PlyDescription)
        ensures
            d@ == DescriptionModel::empty(),
    {
        let d = PlyDescription { format: Format::Ascii, elements: Vec::new() };
        assert(d@.elements =~= Seq::empty());
        d
    }

    /// Adds an element, which has no property yet.
    pub fn add_element(&mut self, name: Vec<u8>, count: usize)
        ensures
            final(self)@ == old(self)@.add_element(name@, count),
    {
        let elem = Element { name, count, properties: Vec::new() };
        assert(elem@.properties =~= Seq::empty());
        self.elements.push(elem);
        assert(self@.elements =~= old(self)@.elements.push(elem@));
    }

    /// Adds a single-number property to the last element; does nothing
    /// where there is no element.
    pub fn add_property(&mut self, name: Vec<u8>, kind: DataType)
        ensures
            final(self)@ == old(self)@.add_property(PropertyModel::Field(name@, kind)),
    {
        self.push_property(Property::Field(name, kind));
    }

    /// Adds a list property to the last element; does nothing where there is
    /// no element.
    pub fn add_property_list(&mut self, name: Vec<u8>, count_kind: DataType, property_kind: DataType)
        ensures
            final(self)@ == old(self)@.add_property(
                PropertyModel::List(name@, count_kind, property_kind),
            ),
    {
        self.push_property(Property::List(name, count_kind, property_kind));
    }

    fn push_property(&mut self, property: Property)
        ensures
            final(self)@ == old(self)@.add_property(property@),
    {
        match self.elements.pop() {
            Some(elem) => {
                let Element { name, count, properties } = elem;
                let mut properties = properties;
                properties.push(property);
                let updated = Element { name, count, properties };
                assert(updated@.properties =~= elem@.properties.push(property@));
                self.elements.push(updated);
                assert(self@.elements =~= old(self)@.elements.drop_last().push(updated@));
            },
            None => {},
        }
    }
}

/// What one line of the header does.
pub enum HeaderStep {
    /// The header ends with this line.
    End,
    /// The header goes on, with this description.
    Next(DescriptionModel),
    /// The line is refused.
    Fail(PlyErrorModel),
}

/// The word at `i` of `words`, or the empty word where there is none.
pub open spec fn word_or_empty(words: Seq<Seq<u8>>, i: int) -> Seq<u8> {
    if 0 <= i < words.len() {
        words[i]
    } else {
        Seq::empty()
    }
}

/// The format that the words of a `format` line name: the second word is the
/// format, the third its version, which must be `1.0`.
pub open spec fn format_of(words: Seq<Seq<u8>>) -> Option<Format> {
    if words.len() >= 3 && words[2] == ascii("1.0") {
        if words[1] == ascii("ascii") {
            Some(Format::Ascii)
        } else if words[1] == ascii("binary_little_endian") {
            Some(Format::BinaryLE)
        } else if words[1] == ascii("binary_big_endian") {
            Some(Format::BinaryBE)
        } else {
            None
        }
    } else {
        None
    }
}

/// What a line of the header does to the description read so far. The line
/// is trimmed and cut at each single space; its first word decides. A
/// `comment` line and a line with an unknown first word change nothing.
pub open spec fn header_step(line: Seq<u8>, desc: DescriptionModel) -> HeaderStep {
    let w = split(trimmed(line), 0x20);
    if w[0] == ascii("end_header") {
        HeaderStep::End
    } else if w[0] == ascii("format") {
        match format_of(w) {
            Some(format) => HeaderStep::Next(desc.with_format(format)),
            None => HeaderStep::Fail(
                PlyErrorModel::InvalidFormat(word_or_empty(w, 1), word_or_empty(w, 2)),
            ),
        }
    } else if w[0] == ascii("element") {
        if w.len() >= 3 && parse_usize_spec(w[2]) is Some {
            HeaderStep::Next(desc.add_element(w[1], parse_usize_spec(w[2])->Some_0))
        } else {
            HeaderStep::Fail(PlyErrorModel::InvalidElement(line))
        }
    } else if w[0] == ascii("property") {
        if w.len() < 2 {
            HeaderStep::Next(desc)
        } else if w[1] == ascii("list") {
            if w.len() >= 5 && data_type_of(w[2]) is Some && data_type_of(w[3]) is Some {
                HeaderStep::Next(
                    desc.add_property(
                        PropertyModel::List(
                            w[4],
                            data_type_of(w[2])->Some_0,
                            data_type_of(w[3])->Some_0,
                        ),
                    ),
                )
            } else {
                HeaderStep::Fail(PlyErrorModel::InvalidProperty(line))
            }
        } else {
            if w.len() >= 3 && data_type_of(w[1]) is Some {
                HeaderStep::Next(
                    desc.add_property(PropertyModel::Field(w[2], data_type_of(w[1])->Some_0)),
                )
            } else {
                HeaderStep::Fail(PlyErrorModel::InvalidProperty(line))
            }
        }
    } else {
        HeaderStep::Next(desc)
    }
}

/// The header from the line that starts at `pos` on: the description it
/// ends with and the position of the body, or the first refusal. A file
/// that ends before `end_header` is cut short.
pub open spec fn header_from(bytes: Seq<u8>, pos: int, desc: DescriptionModel) -> Result<
    (DescriptionModel, int),
    PlyErrorModel,
>
    decreases bytes.len() - pos,
{
    if pos < 0 || pos >= bytes.len() {
        Err(PlyErrorModel::UnexpectedEof)
    } else {
        let end = line_end(bytes, pos);
        if end <= pos {
            Err(PlyErrorModel::UnexpectedEof)
        } else {
            match header_step(bytes.subrange(pos, end), desc) {
                HeaderStep::End => Ok((desc, end)),
                HeaderStep::Next(d) => header_from(bytes, end, d),
                HeaderStep::Fail(e) => Err(e),
            }
        }
    }
}

/// The header of a file: a first line that is `ply` once trimmed, then
/// header lines up to `end_header`.
pub open spec fn header_spec(bytes: Seq<u8>) -> Result<(DescriptionModel, int), PlyErrorModel> {
    let end = line_end(bytes, 0);
    if trimmed(bytes.subrange(0, end)) == ascii("ply") {
        header_from(bytes, end, DescriptionModel::empty())
    } else {
        Err(PlyErrorModel::InvalidFile)
    }
}

/// The body starts within the file.
pub proof fn lemma_header_from_position(bytes: Seq<u8>, pos: int, desc: DescriptionModel)
    requires
        0 <= pos <= bytes.len(),
    ensures
        header_from(bytes, pos, desc) is Ok ==> 0 <= header_from(bytes, pos, desc)->Ok_0.1
            <= bytes.len(),
    decreases bytes.len() - pos,
{
    if pos < bytes.len() {
        crate::text::lemma_find_byte_bounds(bytes, pos, 0x0a);
        let end = line_end(bytes, pos);
        if end > pos {
            match header_step(bytes.subrange(pos, end), desc) {
                HeaderStep::Next(d) => {
                    lemma_header_from_position(bytes, end, d);
                },
                _ => {},
            }
        }
    }
}

/// The body starts within the file.
pub proof fn lemma_header_position(bytes: Seq<u8>)
    ensures
        header_spec(bytes) is Ok ==> 0 <= header_spec(bytes)->Ok_0.1 <= bytes.len(),
{
    crate::text::lemma_find_byte_bounds(bytes, 0, 0x0a);
    lemma_header_from_position(bytes, line_end(bytes, 0), DescriptionModel::empty());
}

/// The mathematical content of the result of `read_header`.
pub open spec fn header_view(r: Result<(PlyDescription, usize), PlyError>) -> Result<
    (DescriptionModel, int),
    PlyErrorModel,
> {
    match r {
        Ok((d, pos)) => Ok((d@, pos as int)),
        Err(e) => Err(e@),
    }
}

/// A copy of the whole of `bytes`.
fn copy_all(bytes: &[u8]) -> (out: Vec<u8>)
    ensures
        out@ == bytes@,
{
    let out = copy_range(bytes, 0, bytes.len());
    out
}

/// Applies one header line to `desc`. The result says whether the header
/// ends with this line.
pub fn read_header_line(line: &[u8], desc: &mut PlyDescription) -> (r: Result<bool, PlyError>)
    ensures
        match header_step(line@, old(desc)@) {
            HeaderStep::End => r == Ok::<bool, PlyError>(true) && final(desc)@ == old(desc)@,
            HeaderStep::Next(d) => r == Ok::<bool, PlyError>(false) && final(desc)@ == d,
            HeaderStep::Fail(e) => r is Err && r->Err_0@ == e,
        },
{
    let (a, b) = trim(line);
    let w = split_on(vstd::slice::slice_subrange(line, a, b), 0x20);
    proof {
        reveal_strlit("end_header");
        reveal_strlit("format");
        reveal_strlit("element");
        reveal_strlit("property");
        reveal_strlit("list");
        reveal_strlit("1.0");
        reveal_strlit("ascii");
        reveal_strlit("binary_little_endian");
        reveal_strlit("binary_big_endian");
    }
    let n = w.len();
    if spells(w[0].as_slice(), "end_header") {
        Ok(true)
    } else if spells(w[0].as_slice(), "format") {
        let format = if n >= 3 && spells(w[2].as_slice(), "1.0") {
            if spells(w[1].as_slice(), "ascii") {
                Some(Format::Ascii)
            } else if spells(w[1].as_slice(), "binary_little_endian") {
                Some(Format::BinaryLE)
            } else if spells(w[1].as_slice(), "binary_big_endian") {
                Some(Format::BinaryBE)
            } else {
                None
            }
        } else {
            None
        };
        match format {
            Some(format) => {
                desc.format = format;
                Ok(false)
            },
            None => {
                let name = if n >= 2 {
                    copy_all(w[1].as_slice())
                } else {
                    Vec::new()
                };
                let version = if n >= 3 {
                    copy_all(w[2].as_slice())
                } else {
                    Vec::new()
                };
                Err(PlyError::InvalidFormat(name, version))
            },
        }
    } else if spells(w[0].as_slice(), "element") {
        let count = if n >= 3 {
            parse_usize(w[2].as_slice())
        } else {
            None
        };
        match count {
            Some(count) => {
                desc.add_element(copy_all(w[1].as_slice()), count);
                Ok(false)
            },
            None => Err(PlyError::InvalidElement(copy_all(line))),
        }
    } else if spells(w[0].as_slice(), "property") {
        if n < 2 {
            Ok(false)
        } else if spells(w[1].as_slice(), "list") {
            let count_kind = if n >= 5 {
                DataType::from_word(w[2].as_slice())
            } else {
                None
            };
            let kind = if n >= 5 {
                DataType::from_word(w[3].as_slice())
            } else {
                None
            };
            match (count_kind, kind) {
                (Some(count_kind), Some(kind)) => {
                    desc.add_property_list(copy_all(w[4].as_slice()), count_kind, kind);
                    Ok(false)
                },
                _ => Err(PlyError::InvalidProperty(copy_all(line))),
            }
        } else {
            let kind = if n >= 3 {
                DataType::from_word(w[1].as_slice())
            } else {
                None
            };
            match kind {
                Some(kind) => {
                    desc.add_property(copy_all(w[2].as_slice()), kind);
                    Ok(false)
                },
                None => Err(PlyError::InvalidProperty(copy_all(line))),
            }
        }
    } else {
        Ok(false)
    }
}

/// Reads the header of a file: what it declares, and where the body starts.
pub fn read_header(bytes: &[u8]) -> (r: Result<(PlyDescription, usize), PlyError>)
    ensures
        header_view(r) == header_spec(bytes@),
{
    let n = bytes.len();
    let first_end = next_line(bytes, 0);
    let (a, b) = trim(vstd::slice::slice_subrange(bytes, 0, first_end));
    let first = vstd::slice::slice_subrange(bytes, 0, first_end);
    proof {
        reveal_strlit("ply");
    }
    if !spells(vstd::slice::slice_subrange(first, a, b), "ply") {
        return Err(PlyError::InvalidFile);
    }
    let mut desc = PlyDescription::new();
    let mut pos = first_end;
    loop
        invariant
            pos <= n == bytes@.len(),
            header_spec(bytes@) == header_from(bytes@, pos as int, desc@),
        decreases n - pos,
    {
        if pos >= n {
            return Err(PlyError::UnexpectedEof);
        }
        let end = next_line(bytes, pos);
        let line = vstd::slice::slice_subrange(bytes, pos, end);
        match read_header_line(line, &mut desc) {
            Ok(true) => {
                return Ok((desc, end));
            },
            Ok(false) => {
                pos = end;
            },
            Err(e) => {
                return Err(e);
            },
        }
    }
}


/// One number of the body, as it stands in the file.
#[derive(Debug, Clone)]
pub enum PlyNumber {
    /// A number of an integer type of a binary file.
    Integer(i64),
    /// The bit pattern of a 32-bit IEEE 754 number of a binary file.
    Single(u32),
    /// The bit pattern of a 64-bit IEEE 754 number of a binary file.
    Double(u64),
    /// A word of an ASCII file.
    Text(Vec<u8>),
}

/// The mathematical content of a `PlyNumber`.
pub enum NumberModel {
    Integer(int),
    Single(u32),
    Double(u64),
    Text(Seq<u8>),
}

impl View for PlyNumber {
    type V = NumberModel;

    open spec fn view(&self) -> NumberModel {
        match *self {
            PlyNumber::Integer(i) => NumberModel::Integer(i as int),
            PlyNumber::Single(bits) => NumberModel::Single(bits),
            PlyNumber::Double(bits) => NumberModel::Double(bits),
            PlyNumber::Text(word) => NumberModel::Text(word@),
        }
    }
}

/// The number of bytes that a number of this type takes in a binary file.
pub open spec fn width(kind: DataType) -> int {
    match kind {
        DataType::Char | DataType::UChar => 1,
        DataType::Short | DataType::UShort => 2,
        DataType::Int | DataType::UInt | DataType::Float => 4,
        DataType::Double => 8,
    }
}

/// White space among the first 256 code points: what separates the words of
/// an ASCII body.
pub open spec fn is_blank(b: u8) -> bool {
    is_space(b) || b == 0x85 || b == 0xa0
}

/// The first position at or after `from` that holds no blank, or the length
/// of `s`.
pub open spec fn skip_blanks(s: Seq<u8>, from: int) -> int
    decreases s.len() - from,
{
    if from >= s.len() {
        s.len() as int
    } else if !is_blank(s[from]) {
        from
    } else {
        skip_blanks(s, from + 1)
    }
}

/// The first position at or after `from` that holds a blank, or the length
/// of `s`.
pub open spec fn find_blank(s: Seq<u8>, from: int) -> int
    decreases s.len() - from,
{
    if from >= s.len() {
        s.len() as int
    } else if is_blank(s[from]) {
        from
    } else {
        find_blank(s, from + 1)
    }
}

/// The next word of an ASCII body and the position after the blank that ends
/// it. A word that the end of the file cuts off is no word.
pub open spec fn word_at(s: Seq<u8>, pos: int) -> Option<(Seq<u8>, int)> {
    let a = skip_blanks(s, pos);
    let b = find_blank(s, a);
    if a <= b < s.len() {
        Some((s.subrange(a, b), b + 1))
    } else {
        None
    }
}

/// `v` read as a two's complement number whose sign bit is worth `half`.
pub open spec fn signed(v: int, half: int) -> int {
    if v >= half {
        v - 2 * half
    } else {
        v
    }
}

/// The number of type `kind` that stands at `pos` of a binary body.
pub open spec fn binary_number(big: bool, kind: DataType, s: Seq<u8>, pos: int) -> NumberModel {
    match kind {
        DataType::Char => NumberModel::Integer(signed(s[pos] as int, 0x80)),
        DataType::UChar => NumberModel::Integer(s[pos] as int),
        DataType::Short => NumberModel::Integer(signed(unsigned_at(big, s, pos, 2), 0x8000)),
        DataType::UShort => NumberModel::Integer(unsigned_at(big, s, pos, 2)),
        DataType::Int => NumberModel::Integer(signed(unsigned_at(big, s, pos, 4), 0x8000_0000)),
        DataType::UInt => NumberModel::Integer(unsigned_at(big, s, pos, 4)),
        DataType::Float => NumberModel::Single(unsigned_at(big, s, pos, 4) as u32),
        DataType::Double => NumberModel::Double(unsigned_at(big, s, pos, 8) as u64),
    }
}

/// The number at `pos` and the position after it, or nothing where the file
/// ends first. In an ASCII body a number is the next word, whatever its type.
pub open spec fn number_at(format: Format, kind: DataType, s: Seq<u8>, pos: int) -> Option<
    (NumberModel, int),
> {
    match format {
        Format::Ascii => match word_at(s, pos) {
            Some((word, next)) => Some((NumberModel::Text(word), next)),
            None => None,
        },
        _ => if 0 <= pos && pos + width(kind) <= s.len() {
            Some((binary_number(format == Format::BinaryBE, kind, s, pos), pos + width(kind)))
        } else {
            None
        },
    }
}

/// The position after the number at `pos`, or nothing where the file ends
/// first.
pub open spec fn skip_at(format: Format, kind: DataType, s: Seq<u8>, pos: int) -> Option<int> {
    match number_at(format, kind, s, pos) {
        Some((_, next)) => Some(next),
        None => None,
    }
}

/// A number as a length or an index: an integer that is not negative and
/// fits; the whole part of a number of a floating type of a binary body;
/// or a word that spells an unsigned decimal number.
pub open spec fn count_of(number: NumberModel) -> Option<usize> {
    match number {
        NumberModel::Integer(i) => if 0 <= i <= usize::MAX {
            Some(i as usize)
        } else {
            None
        },
        NumberModel::Single(bits) => Some(count_of_single(bits)),
        NumberModel::Double(bits) => Some(count_of_double(bits)),
        NumberModel::Text(word) => parse_usize_spec(word),
    }
}

/// A whole part that was handed over: the position at which a number was
/// looked for, and the whole part of the number that stands there.
#[derive(Debug, Copy, Clone, PartialEq, Eq, Structural)]
pub struct Whole {
    pub at: usize,
    pub count: usize,
}

/// The whole part handed over for the number looked for at `pos`: that of
/// the first of `wholes` that names the position.
pub open spec fn whole_from(wholes: Seq<Whole>, i: int, pos: int) -> Option<usize>
    decreases wholes.len() - i,
{
    if i < 0 || i >= wholes.len() {
        None
    } else if wholes[i].at == pos {
        Some(wholes[i].count)
    } else {
        whole_from(wholes, i + 1, pos)
    }
}

/// The whole part handed over for the number looked for at `pos`.
pub open spec fn whole_at(wholes: Seq<Whole>, pos: int) -> Option<usize> {
    whole_from(wholes, 0, pos)
}

/// The whole part handed over for the number looked for at `pos`.
pub fn find_whole(wholes: &Vec<Whole>, pos: usize) -> (r: Option<usize>)
    ensures
        r == whole_at(wholes@, pos as int),
{
    let n = wholes.len();
    let mut i: usize = 0;
    while i < n
        invariant
            i <= n == wholes@.len(),
            whole_at(wholes@, pos as int) == whole_from(wholes@, i as int, pos as int),
        decreases n - i,
    {
        if wholes[i].at == pos {
            return Some(wholes[i].count);
        }
        i += 1;
    }
    None
}

/// A whole part that is put after those handed over is found where none
/// was handed over for its position, and changes nothing where one was.
pub proof fn lemma_whole_put_last(wholes: Seq<Whole>, last: Whole, pos: int)
    ensures
        whole_at(wholes.push(last), pos) == match whole_at(wholes, pos) {
            Some(count) => Some(count),
            None => if last.at == pos {
                Some(last.count)
            } else {
                None
            },
        },
{
    lemma_whole_from_put_last(wholes, last, pos, 0);
}

proof fn lemma_whole_from_put_last(wholes: Seq<Whole>, last: Whole, pos: int, i: int)
    requires
        0 <= i <= wholes.len(),
    ensures
        whole_from(wholes.push(last), i, pos) == match whole_from(wholes, i, pos) {
            Some(count) => Some(count),
            None => if last.at == pos {
                Some(last.count)
            } else {
                None
            },
        },
    decreases wholes.len() - i,
{
    if i < wholes.len() {
        assert(wholes.push(last)[i] == wholes[i]);
        if wholes[i].at != pos {
            lemma_whole_from_put_last(wholes, last, pos, i + 1);
        }
    } else {
        assert(wholes.push(last)[i] == last);
        assert(whole_from(wholes.push(last), i + 1, pos) is None);
    }
}

/// Whether a type is a floating type.
pub open spec fn is_floating(kind: DataType) -> bool {
    kind == DataType::Float || kind == DataType::Double
}

/// The length or index at `pos` and the position after it. A word of an
/// ASCII body that stands for a number of a floating type is not read
/// here: its whole part is the one handed over for `pos`, and it is asked
/// for where none was.
pub open spec fn count_at(
    format: Format,
    wholes: Seq<Whole>,
    kind: DataType,
    s: Seq<u8>,
    pos: int,
) -> Result<(usize, int), PlyErrorModel> {
    match number_at(format, kind, s, pos) {
        None => Err(PlyErrorModel::UnexpectedEof),
        Some((NumberModel::Text(word), next)) => if is_floating(kind) {
            match whole_at(wholes, pos) {
                Some(count) => Ok((count, next)),
                None => Err(PlyErrorModel::NeedsWhole(pos, word)),
            }
        } else {
            match parse_usize_spec(word) {
                Some(count) => Ok((count, next)),
                None => Err(PlyErrorModel::InvalidNumber),
            }
        },
        Some((number, next)) => match count_of(number) {
            Some(count) => Ok((count, next)),
            None => Err(PlyErrorModel::InvalidNumber),
        },
    }
}

pub proof fn lemma_skip_blanks_bounds(s: Seq<u8>, from: int)
    requires
        0 <= from <= s.len(),
    ensures
        from <= skip_blanks(s, from) <= s.len(),
    decreases s.len() - from,
{
    if from < s.len() && is_blank(s[from]) {
        lemma_skip_blanks_bounds(s, from + 1);
    }
}

pub proof fn lemma_find_blank_bounds(s: Seq<u8>, from: int)
    requires
        0 <= from <= s.len(),
    ensures
        from <= find_blank(s, from) <= s.len(),
    decreases s.len() - from,
{
    if from < s.len() && !is_blank(s[from]) {
        lemma_find_blank_bounds(s, from + 1);
    }
}

/// A number is read from within the file and ends within it, after where it
/// started.
pub proof fn lemma_number_at_bounds(format: Format, kind: DataType, s: Seq<u8>, pos: int)
    requires
        0 <= pos <= s.len(),
    ensures
        number_at(format, kind, s, pos) is Some ==> pos < number_at(
            format,
            kind,
            s,
            pos,
        )->Some_0.1 <= s.len(),
{
    lemma_skip_blanks_bounds(s, pos);
    lemma_find_blank_bounds(s, skip_blanks(s, pos));
}

/// Whether `b` is a blank.
fn blank(b: u8) -> (r: bool)
    ensures
        r == is_blank(b),
{
    b == 0x20 || (0x09 <= b && b <= 0x0d) || b == 0x85 || b == 0xa0
}

/// The bounds of the next word of an ASCII body, where the file does not cut
/// it off.
fn next_word(bytes: &[u8], pos: usize) -> (r: Option<(usize, usize)>)
    requires
        pos <= bytes@.len(),
    ensures
        match r {
            Some((a, b)) => pos <= a <= b < bytes@.len() && word_at(bytes@, pos as int) == Some(
                (bytes@.subrange(a as int, b as int), b + 1),
            ),
            None => word_at(bytes@, pos as int) is None,
        },
{
    let n = bytes.len();
    let mut a: usize = pos;
    while a < n && blank(bytes[a])
        invariant
            pos <= a <= n == bytes@.len(),
            skip_blanks(bytes@, pos as int) == skip_blanks(bytes@, a as int),
        decreases n - a,
    {
        a += 1;
    }
    let mut b: usize = a;
    while b < n && !blank(bytes[b])
        invariant
            a <= b <= n == bytes@.len(),
            find_blank(bytes@, a as int) == find_blank(bytes@, b as int),
        decreases n - b,
    {
        b += 1;
    }
    if b < n {
        Some((a, b))
    } else {
        None
    }
}

impl DataType {
    /// The number of bytes that a number of this type takes in a binary file.
    pub fn size(&self) -> (n: usize)
        ensures
            n == width(*self),
    {
        match self {
            DataType::Char | DataType::UChar => 1,
            DataType::Short | DataType::UShort => 2,
            DataType::Int | DataType::UInt | DataType::Float => 4,
            DataType::Double => 8,
        }
    }
}

impl Format {
    /// Reads the number of type `kind` at `pos`: the number as it stands in
    /// the file, and the position after it.
    pub fn read_number(&self, bytes: &[u8], pos: usize, kind: DataType) -> (r: Result<
        (PlyNumber, usize),
        PlyError,
    >)
        requires
            pos <= bytes@.len(),
        ensures
            match number_at(*self, kind, bytes@, pos as int) {
                Some((number, next)) => r is Ok && r->Ok_0.0@ == number && r->Ok_0.1 == next,
                None => r is Err && r->Err_0@ == PlyErrorModel::UnexpectedEof,
            },
    {
        let n = bytes.len();
        match self {
            Format::Ascii => match next_word(bytes, pos) {
                Some((a, b)) => Ok((PlyNumber::Text(copy_range(bytes, a, b)), b + 1)),
                None => Err(PlyError::UnexpectedEof),
            },
            _ => {
                let big = match self {
                    Format::BinaryBE => true,
                    _ => false,
                };
                let size = kind.size();
                if size > n - pos {
                    return Err(PlyError::UnexpectedEof);
                }
                let number = match kind {
                    DataType::Char => {
                        let b = bytes[pos];
                        PlyNumber::Integer(
                            if b >= 0x80 {
                                b as i64 - 0x100
                            } else {
                                b as i64
                            },
                        )
                    },
                    DataType::UChar => PlyNumber::Integer(bytes[pos] as i64),
                    DataType::Short => {
                        let v = u16_at(big, bytes, pos);
                        PlyNumber::Integer(
                            if v >= 0x8000 {
                                v as i64 - 0x1_0000
                            } else {
                                v as i64
                            },
                        )
                    },
                    DataType::UShort => PlyNumber::Integer(u16_at(big, bytes, pos) as i64),
                    DataType::Int => {
                        let v = u32_at(big, bytes, pos);
                        PlyNumber::Integer(
                            if v >= 0x8000_0000 {
                                v as i64 - 0x1_0000_0000
                            } else {
                                v as i64
                            },
                        )
                    },
                    DataType::UInt => PlyNumber::Integer(u32_at(big, bytes, pos) as i64),
                    DataType::Float => PlyNumber::Single(u32_at(big, bytes, pos)),
                    DataType::Double => PlyNumber::Double(u64_at(big, bytes, pos)),
                };
                Ok((number, pos + size))
            },
        }
    }

    /// Passes over the number of type `kind` at `pos`: the position after it.
    pub fn skip(&self, bytes: &[u8], pos: usize, kind: DataType) -> (r: Result<usize, PlyError>)
        requires
            pos <= bytes@.len(),
        ensures
            match skip_at(*self, kind, bytes@, pos as int) {
                Some(next) => r is Ok && r->Ok_0 == next && pos < next <= bytes@.len(),
                None => r is Err && r->Err_0@ == PlyErrorModel::UnexpectedEof,
            },
    {
        let n = bytes.len();
        proof {
            lemma_number_at_bounds(*self, kind, bytes@, pos as int);
        }
        match self {
            Format::Ascii => match next_word(bytes, pos) {
                Some((a, b)) => Ok(b + 1),
                None => Err(PlyError::UnexpectedEof),
            },
            _ => {
                let size = kind.size();
                if size > n - pos {
                    Err(PlyError::UnexpectedEof)
                } else {
                    Ok(pos + size)
                }
            },
        }
    }

    /// Reads the length or index of type `kind` at `pos`: its value, and the
    /// position after it. The whole part of a floating number of an ASCII
    /// body is taken from `wholes`.
    pub fn read_usize(&self, wholes: &Vec<Whole>, bytes: &[u8], pos: usize, kind: DataType) -> (r:
        Result<(usize, usize), PlyError>)
        requires
            pos <= bytes@.len(),
        ensures
            match count_at(*self, wholes@, kind, bytes@, pos as int) {
                Ok((count, next)) => r is Ok && r->Ok_0.0 == count && r->Ok_0.1 == next && pos
                    < next <= bytes@.len(),
                Err(e) => r is Err && r->Err_0@ == e,
            },
    {
        proof {
            lemma_number_at_bounds(*self, kind, bytes@, pos as int);
        }
        match self.read_number(bytes, pos, kind) {
            Err(e) => Err(e),
            Ok((number, next)) => {
                match number {
                    PlyNumber::Text(word) => {
                        if kind.floating() {
                            match find_whole(wholes, pos) {
                                Some(count) => Ok((count, next)),
                                None => Err(PlyError::NeedsWhole(pos, word)),
                            }
                        } else {
                            match parse_usize(word.as_slice()) {
                                Some(count) => Ok((count, next)),
                                None => Err(PlyError::InvalidNumber),
                            }
                        }
                    },
                    PlyNumber::Integer(i) => if 0 <= i && i as u64 <= usize::MAX as u64 {
                        Ok((i as usize, next))
                    } else {
                        Err(PlyError::InvalidNumber)
                    },
                    PlyNumber::Single(bits) => Ok((single_to_count(bits), next)),
                    PlyNumber::Double(bits) => Ok((double_to_count(bits), next)),
                }
            },
        }
    }
}

impl DataType {
    /// Whether this is a floating type.
    pub fn floating(&self) -> (r: bool)
        ensures
            r == is_floating(*self),
    {
        match self {
            DataType::Float | DataType::Double => true,
            _ => false,
        }
    }
}


/// A vertex: its three coordinates as they stand in the file.
#[derive(Debug, Clone)]
pub struct PlyVertex {
    pub x: PlyNumber,
    pub y: PlyNumber,
    pub z: PlyNumber,
}

/// A triangle: the indices of its corners among the vertices.
#[derive(Debug, Copy, Clone, PartialEq, Eq, Structural)]
pub struct PlyFace {
    pub a: usize,
    pub b: usize,
    pub c: usize,
}

/// The vertices and triangles of a file, each in file order.
#[derive(Debug, Clone)]
pub struct PlyMesh {
    pub vertices: Vec<PlyVertex>,
    pub faces: Vec<PlyFace>,
}

/// The mathematical content of a `PlyVertex`.
pub struct VertexModel {
    pub x: NumberModel,
    pub y: NumberModel,
    pub z: NumberModel,
}

/// The mathematical content of a `PlyMesh`.
pub struct MeshModel {
    pub vertices: Seq<VertexModel>,
    pub faces: Seq<PlyFace>,
}

impl View for PlyVertex {
    type V = VertexModel;

    open spec fn view(&self) -> VertexModel {
        VertexModel { x: self.x@, y: self.y@, z: self.z@ }
    }
}

impl View for PlyMesh {
    type V = MeshModel;

    open spec fn view(&self) -> MeshModel {
        MeshModel {
            vertices: Seq::new(self.vertices@.len(), |i: int| self.vertices@[i]@),
            faces: self.faces@,
        }
    }
}

impl MeshModel {
    /// A mesh without vertices and triangles.
    pub open spec fn empty() -> MeshModel {
        MeshModel { vertices: Seq::empty(), faces: Seq::empty() }
    }

    /// Every triangle names three vertices of the mesh.
    pub open spec fn well_formed(self) -> bool {
        forall|i: int|
            0 <= i < self.faces.len() ==> {
                &&& (#[trigger] self.faces[i]).a < self.vertices.len()
                &&& self.faces[i].b < self.vertices.len()
                &&& self.faces[i].c < self.vertices.len()
            }
    }
}

/// How far the body has been read: the position, and the mesh so far.
pub struct Progress {
    pub pos: usize,
    pub mesh: PlyMesh,
}

/// The mathematical content of a `Progress`.
pub struct ProgressModel {
    pub pos: int,
    pub mesh: MeshModel,
}

impl View for Progress {
    type V = ProgressModel;

    open spec fn view(&self) -> ProgressModel {
        ProgressModel { pos: self.pos as int, mesh: self.mesh@ }
    }
}

/// The coordinates that the current row has given so far.
pub struct Row {
    pub x: Option<PlyNumber>,
    pub y: Option<PlyNumber>,
    pub z: Option<PlyNumber>,
}

/// The mathematical content of a `Row`.
pub struct RowModel {
    pub x: Option<NumberModel>,
    pub y: Option<NumberModel>,
    pub z: Option<NumberModel>,
}

/// The mathematical content of a number that may be missing.
pub open spec fn number_view(number: Option<PlyNumber>) -> Option<NumberModel> {
    match number {
        Some(n) => Some(n@),
        None => None,
    }
}

impl View for Row {
    type V = RowModel;

    open spec fn view(&self) -> RowModel {
        RowModel { x: number_view(self.x), y: number_view(self.y), z: number_view(self.z) }
    }
}

impl RowModel {
    /// A row that has given no coordinate.
    pub open spec fn empty() -> RowModel {
        RowModel { x: None, y: None, z: None }
    }
}

/// The position after `count` numbers of type `kind`, or nothing where the
/// file ends first.
pub open spec fn skip_many(format: Format, kind: DataType, s: Seq<u8>, pos: int, count: nat)
    -> Option<int>
    decreases count,
{
    if count == 0 {
        Some(pos)
    } else {
        match skip_at(format, kind, s, pos) {
            Some(next) => skip_many(format, kind, s, next, (count - 1) as nat),
            None => None,
        }
    }
}

/// Three vertex indices in a row, starting at `pos`, and the position after
/// them.
pub open spec fn corners_at(format: Format, wholes: Seq<Whole>, kind: DataType, s: Seq<u8>, pos: int) -> Result<
    (PlyFace, int),
    PlyErrorModel,
> {
    match count_at(format, wholes, kind, s, pos) {
        Err(e) => Err(e),
        Ok((a, after_a)) => match count_at(format, wholes, kind, s, after_a) {
            Err(e) => Err(e),
            Ok((b, after_b)) => match count_at(format, wholes, kind, s, after_b) {
                Err(e) => Err(e),
                Ok((c, after_c)) => Ok((PlyFace { a, b, c }, after_c)),
            },
        },
    }
}

/// What one property of a row does. A single number named `x`, `y` or `z`
/// in a vertex row is kept as that coordinate; any other single number is
/// passed over. A list of length 3 in a face row is a triangle, whose
/// corners must be vertices read before it; any other list is passed over.
#[verifier::opaque]
pub open spec fn property_step(
    format: Format,
    wholes: Seq<Whole>,
    property: PropertyModel,
    is_vertex: bool,
    is_face: bool,
    s: Seq<u8>,
    at: ProgressModel,
    row: RowModel,
) -> Result<(ProgressModel, RowModel), PlyErrorModel> {
    match property {
        PropertyModel::Field(name, kind) => {
            if is_vertex && (name == ascii("x") || name == ascii("y") || name == ascii("z")) {
                match number_at(format, kind, s, at.pos) {
                    None => Err(PlyErrorModel::UnexpectedEof),
                    Some((number, next)) => Ok(
                        (
                            ProgressModel { pos: next, mesh: at.mesh },
                            if name == ascii("x") {
                                RowModel { x: Some(number), y: row.y, z: row.z }
                            } else if name == ascii("y") {
                                RowModel { x: row.x, y: Some(number), z: row.z }
                            } else {
                                RowModel { x: row.x, y: row.y, z: Some(number) }
                            },
                        ),
                    ),
                }
            } else {
                match skip_at(format, kind, s, at.pos) {
                    None => Err(PlyErrorModel::UnexpectedEof),
                    Some(next) => Ok((ProgressModel { pos: next, mesh: at.mesh }, row)),
                }
            }
        },
        PropertyModel::List(_, count_kind, kind) => match count_at(format, wholes, count_kind, s, at.pos) {
            Err(e) => Err(e),
            Ok((count, start)) => if is_face && count == 3 {
                match corners_at(format, wholes, kind, s, start) {
                    Err(e) => Err(e),
                    Ok((face, next)) => if face.a < at.mesh.vertices.len() && face.b
                        < at.mesh.vertices.len() && face.c < at.mesh.vertices.len() {
                        Ok(
                            (
                                ProgressModel {
                                    pos: next,
                                    mesh: MeshModel {
                                        vertices: at.mesh.vertices,
                                        faces: at.mesh.faces.push(face),
                                    },
                                },
                                row,
                            ),
                        )
                    } else {
                        Err(PlyErrorModel::MissingVertex)
                    },
                }
            } else {
                match skip_many(format, kind, s, start, count as nat) {
                    None => Err(PlyErrorModel::UnexpectedEof),
                    Some(next) => Ok((ProgressModel { pos: next, mesh: at.mesh }, row)),
                }
            },
        },
    }
}

/// What the properties from the one at `i` on do, in order.
pub open spec fn properties_from(
    format: Format,
    wholes: Seq<Whole>,
    properties: Seq<PropertyModel>,
    i: int,
    is_vertex: bool,
    is_face: bool,
    s: Seq<u8>,
    at: ProgressModel,
    row: RowModel,
) -> Result<(ProgressModel, RowModel), PlyErrorModel>
    decreases properties.len() - i,
{
    if i < 0 || i >= properties.len() {
        Ok((at, row))
    } else {
        match property_step(format, wholes, properties[i], is_vertex, is_face, s, at, row) {
            Err(e) => Err(e),
            Ok((next, row)) => properties_from(
                format,
                wholes,
                properties,
                i + 1,
                is_vertex,
                is_face,
                s,
                next,
                row,
            ),
        }
    }
}

/// What one row of an element does: its properties in order, and then, in
/// an element named `vertex`, one more vertex where the row gave all of `x`,
/// `y` and `z`.
pub open spec fn row_step(format: Format, wholes: Seq<Whole>, element: ElementModel, s: Seq<u8>, at: ProgressModel)
    -> Result<ProgressModel, PlyErrorModel> {
    let is_vertex = element.name == ascii("vertex");
    let is_face = element.name == ascii("face");
    match properties_from(
        format,
        wholes,
        element.properties,
        0,
        is_vertex,
        is_face,
        s,
        at,
        RowModel::empty(),
    ) {
        Err(e) => Err(e),
        Ok((next, row)) => if is_vertex && row.x is Some && row.y is Some && row.z is Some {
            Ok(
                ProgressModel {
                    pos: next.pos,
                    mesh: MeshModel {
                        vertices: next.mesh.vertices.push(
                            VertexModel { x: row.x->Some_0, y: row.y->Some_0, z: row.z->Some_0 },
                        ),
                        faces: next.mesh.faces,
                    },
                },
            )
        } else {
            Ok(next)
        },
    }
}

/// What `remaining` rows of an element do, in order.
pub open spec fn rows_from(
    format: Format,
    wholes: Seq<Whole>,
    element: ElementModel,
    s: Seq<u8>,
    at: ProgressModel,
    remaining: nat,
) -> Result<ProgressModel, PlyErrorModel>
    decreases remaining,
{
    if remaining == 0 {
        Ok(at)
    } else {
        match row_step(format, wholes, element, s, at) {
            Err(e) => Err(e),
            Ok(next) => rows_from(format, wholes, element, s, next, (remaining - 1) as nat),
        }
    }
}

/// What the elements from the one at `i` on do, each with all its rows.
pub open spec fn elements_from(
    format: Format,
    wholes: Seq<Whole>,
    elements: Seq<ElementModel>,
    i: int,
    s: Seq<u8>,
    at: ProgressModel,
) -> Result<ProgressModel, PlyErrorModel>
    decreases elements.len() - i,
{
    if i < 0 || i >= elements.len() {
        Ok(at)
    } else {
        match rows_from(format, wholes, elements[i], s, at, elements[i].count as nat) {
            Err(e) => Err(e),
            Ok(next) => elements_from(format, wholes, elements, i + 1, s, next),
        }
    }
}

/// The mesh that the body at `pos` holds under a description.
pub open spec fn body_spec(desc: DescriptionModel, wholes: Seq<Whole>, s: Seq<u8>, pos: int) -> Result<
    MeshModel,
    PlyErrorModel,
> {
    match elements_from(
        desc.format,
        wholes,
        desc.elements,
        0,
        s,
        ProgressModel { pos, mesh: MeshModel::empty() },
    ) {
        Err(e) => Err(e),
        Ok(end) => Ok(end.mesh),
    }
}

/// The mesh that a file holds: its header, then its body.
pub open spec fn ply_spec(s: Seq<u8>, wholes: Seq<Whole>) -> Result<MeshModel, PlyErrorModel> {
    match header_spec(s) {
        Err(e) => Err(e),
        Ok((desc, pos)) => body_spec(desc, wholes, s, pos),
    }
}

/// The mathematical content of the result of a step of the body.
pub open spec fn progress_view(r: Result<Progress, PlyError>) -> Result<
    ProgressModel,
    PlyErrorModel,
> {
    match r {
        Ok(p) => Ok(p@),
        Err(e) => Err(e@),
    }
}

/// The mathematical content of the result of a step inside a row.
pub open spec fn row_view(r: Result<(Progress, Row), PlyError>) -> Result<
    (ProgressModel, RowModel),
    PlyErrorModel,
> {
    match r {
        Ok((p, row)) => Ok((p@, row@)),
        Err(e) => Err(e@),
    }
}

/// The mathematical content of the result of `PlyLoader::load`.
pub open spec fn mesh_view(r: Result<PlyMesh, PlyError>) -> Result<MeshModel, PlyErrorModel> {
    match r {
        Ok(m) => Ok(m@),
        Err(e) => Err(e@),
    }
}


/// Rows of an element without properties read nothing.
pub proof fn lemma_rows_without_properties(
    format: Format,
    wholes: Seq<Whole>,
    element: ElementModel,
    s: Seq<u8>,
    at: ProgressModel,
    remaining: nat,
)
    requires
        element.properties.len() == 0,
    ensures
        rows_from(format, wholes, element, s, at, remaining) == Ok::<ProgressModel, PlyErrorModel>(at),
    decreases remaining,
{
    if remaining > 0 {
        lemma_rows_without_properties(format, wholes, element, s, at, (remaining - 1) as nat);
    }
}

/// Passes over `count` numbers of type `kind`.
fn skip_numbers(format: Format, kind: DataType, bytes: &[u8], pos: usize, count: usize) -> (r:
    Result<usize, PlyError>)
    requires
        pos <= bytes@.len(),
    ensures
        match skip_many(format, kind, bytes@, pos as int, count as nat) {
            Some(next) => r is Ok && r->Ok_0 == next && pos <= next <= bytes@.len(),
            None => r is Err && r->Err_0@ == PlyErrorModel::UnexpectedEof,
        },
{
    let mut p: usize = pos;
    let mut i: usize = 0;
    while i < count
        invariant
            i <= count,
            pos <= p <= bytes@.len(),
            skip_many(format, kind, bytes@, pos as int, count as nat) == skip_many(
                format,
                kind,
                bytes@,
                p as int,
                (count - i) as nat,
            ),
        decreases count - i,
    {
        match format.skip(bytes, p, kind) {
            Ok(next) => {
                p = next;
            },
            Err(e) => {
                return Err(e);
            },
        }
        i += 1;
    }
    Ok(p)
}

/// Reads three vertex indices in a row.
fn read_corners(format: Format, wholes: &Vec<Whole>, kind: DataType, bytes: &[u8], pos: usize) -> (r: Result<
    (PlyFace, usize),
    PlyError,
>)
    requires
        pos <= bytes@.len(),
    ensures
        match corners_at(format, wholes@, kind, bytes@, pos as int) {
            Ok((face, next)) => r is Ok && r->Ok_0.0 == face && r->Ok_0.1 == next && pos <= next
                <= bytes@.len(),
            Err(e) => r is Err && r->Err_0@ == e,
        },
{
    let (a, after_a) = match format.read_usize(wholes, bytes, pos, kind) {
        Ok(v) => v,
        Err(e) => {
            return Err(e);
        },
    };
    let (b, after_b) = match format.read_usize(wholes, bytes, after_a, kind) {
        Ok(v) => v,
        Err(e) => {
            return Err(e);
        },
    };
    let (c, after_c) = match format.read_usize(wholes, bytes, after_b, kind) {
        Ok(v) => v,
        Err(e) => {
            return Err(e);
        },
    };
    Ok((PlyFace { a, b, c }, after_c))
}

/// Reads one property of a row.
pub fn read_property(
    format: Format,
    wholes: &Vec<Whole>,
    property: &Property,
    is_vertex: bool,
    is_face: bool,
    bytes: &[u8],
    at: Progress,
    row: Row,
) -> (r: Result<(Progress, Row), PlyError>)
    requires
        at.pos <= bytes@.len(),
        at.mesh@.well_formed(),
    ensures
        row_view(r) == property_step(format, wholes@, property@, is_vertex, is_face, bytes@, at@, row@),
        r is Ok ==> r->Ok_0.0.pos <= bytes@.len() && r->Ok_0.0.mesh@.well_formed(),
{
    proof {
        reveal(property_step);
        reveal_strlit("x");
        reveal_strlit("y");
        reveal_strlit("z");
    }
    let Progress { pos, mesh } = at;
    match property {
        Property::Field(name, kind) => {
            let is_x = spells(name.as_slice(), "x");
            let is_y = spells(name.as_slice(), "y");
            let is_z = spells(name.as_slice(), "z");
            if is_vertex && (is_x || is_y || is_z) {
                proof {
                    lemma_number_at_bounds(format, *kind, bytes@, pos as int);
                }
                match format.read_number(bytes, pos, *kind) {
                    Err(e) => Err(e),
                    Ok((number, next)) => {
                        let Row { x, y, z } = row;
                        let row = if is_x {
                            Row { x: Some(number), y, z }
                        } else if is_y {
                            Row { x, y: Some(number), z }
                        } else {
                            Row { x, y, z: Some(number) }
                        };
                        Ok((Progress { pos: next, mesh }, row))
                    },
                }
            } else {
                match format.skip(bytes, pos, *kind) {
                    Err(e) => Err(e),
                    Ok(next) => Ok((Progress { pos: next, mesh }, row)),
                }
            }
        },
        Property::List(_, count_kind, kind) => {
            let (count, start) = match format.read_usize(wholes, bytes, pos, *count_kind) {
                Ok(v) => v,
                Err(e) => {
                    return Err(e);
                },
            };
            if is_face && count == 3 {
                match read_corners(format, wholes, *kind, bytes, start) {
                    Err(e) => Err(e),
                    Ok((face, next)) => {
                        let n = mesh.vertices.len();
                        if face.a < n && face.b < n && face.c < n {
                            let PlyMesh { vertices, faces } = mesh;
                            let mut faces = faces;
                            faces.push(face);
                            let mesh = PlyMesh { vertices, faces };
                            Ok((Progress { pos: next, mesh }, row))
                        } else {
                            Err(PlyError::MissingVertex)
                        }
                    },
                }
            } else {
                match skip_numbers(format, *kind, bytes, start, count) {
                    Err(e) => Err(e),
                    Ok(next) => Ok((Progress { pos: next, mesh }, row)),
                }
            }
        },
    }
}

/// Reads one row of an element.
pub fn read_row(format: Format, wholes: &Vec<Whole>, element: &Element, bytes: &[u8], at: Progress) -> (r: Result<
    Progress,
    PlyError,
>)
    requires
        at.pos <= bytes@.len(),
        at.mesh@.well_formed(),
    ensures
        progress_view(r) == row_step(format, wholes@, element@, bytes@, at@),
        r is Ok ==> r->Ok_0.pos <= bytes@.len() && r->Ok_0.mesh@.well_formed(),
{
    proof {
        reveal_strlit("vertex");
        reveal_strlit("face");
    }
    let is_vertex = spells(element.name.as_slice(), "vertex");
    let is_face = spells(element.name.as_slice(), "face");
    let ghost start = at@;
    let ghost properties = element@.properties;
    let mut cur = at;
    let mut row = Row { x: None, y: None, z: None };
    let n = element.properties.len();
    let mut i: usize = 0;
    while i < n
        invariant
            i <= n == element.properties@.len(),
            properties == element@.properties,
            start == at@,
            is_vertex == (element@.name == ascii("vertex")),
            is_face == (element@.name == ascii("face")),
            cur.pos <= bytes@.len(),
            cur.mesh@.well_formed(),
            properties_from(
                format,
                wholes@,
                properties,
                0,
                is_vertex,
                is_face,
                bytes@,
                start,
                RowModel::empty(),
            ) == properties_from(format, wholes@, properties, i as int, is_vertex, is_face, bytes@, cur@, row@),
        decreases n - i,
    {
        match read_property(format, wholes, &element.properties[i], is_vertex, is_face, bytes, cur, row) {
            Ok((c, r)) => {
                cur = c;
                row = r;
            },
            Err(e) => {
                return Err(e);
            },
        }
        i += 1;
    }
    let Row { x, y, z } = row;
    match (is_vertex, x, y, z) {
        (true, Some(x), Some(y), Some(z)) => {
            let Progress { pos, mesh } = cur;
            let PlyMesh { vertices, faces } = mesh;
            let mut vertices = vertices;
            let ghost before = mesh@;
            let vertex = PlyVertex { x, y, z };
            vertices.push(vertex);
            let mesh = PlyMesh { vertices, faces };
            assert(mesh@.vertices =~= before.vertices.push(vertex@));
            Ok(Progress { pos, mesh })
        },
        _ => Ok(cur),
    }
}

/// Reads all the rows of an element.
pub fn read_element(format: Format, wholes: &Vec<Whole>, element: &Element, bytes: &[u8], at: Progress) -> (r: Result<
    Progress,
    PlyError,
>)
    requires
        at.pos <= bytes@.len(),
        at.mesh@.well_formed(),
    ensures
        progress_view(r) == rows_from(format, wholes@, element@, bytes@, at@, element.count as nat),
        r is Ok ==> r->Ok_0.pos <= bytes@.len() && r->Ok_0.mesh@.well_formed(),
{
    if element.properties.len() == 0 {
        proof {
            lemma_rows_without_properties(format, wholes@, element@, bytes@, at@, element.count as nat);
        }
        return Ok(at);
    }
    let ghost start = at@;
    let count = element.count;
    let mut cur = at;
    let mut i: usize = 0;
    while i < count
        invariant
            i <= count == element.count,
            start == at@,
            cur.pos <= bytes@.len(),
            cur.mesh@.well_formed(),
            rows_from(format, wholes@, element@, bytes@, start, count as nat) == rows_from(
                format,
                wholes@,
                element@,
                bytes@,
                cur@,
                (count - i) as nat,
            ),
        decreases count - i,
    {
        match read_row(format, wholes, element, bytes, cur) {
            Ok(next) => {
                cur = next;
            },
            Err(e) => {
                return Err(e);
            },
        }
        i += 1;
    }
    Ok(cur)
}

/// Reads the body that starts at `pos` under a description.
pub fn read_body(desc: &PlyDescription, wholes: &Vec<Whole>, bytes: &[u8], pos: usize) -> (r: Result<
    PlyMesh,
    PlyError,
>)
    requires
        pos <= bytes@.len(),
    ensures
        mesh_view(r) == body_spec(desc@, wholes@, bytes@, pos as int),
        r is Ok ==> r->Ok_0@.well_formed(),
{
    let mesh = PlyMesh { vertices: Vec::new(), faces: Vec::new() };
    assert(mesh@.vertices =~= Seq::empty());
    let mut cur = Progress { pos, mesh };
    let ghost start = cur@;
    let ghost elements = desc@.elements;
    let n = desc.elements.len();
    let mut i: usize = 0;
    while i < n
        invariant
            i <= n == desc.elements@.len(),
            elements == desc@.elements,
            start == (ProgressModel { pos: pos as int, mesh: MeshModel::empty() }),
            cur.pos <= bytes@.len(),
            cur.mesh@.well_formed(),
            elements_from(desc.format, wholes@, elements, 0, bytes@, start) == elements_from(
                desc.format,
                wholes@,
                elements,
                i as int,
                bytes@,
                cur@,
            ),
        decreases n - i,
    {
        match read_element(desc.format, wholes, &desc.elements[i], bytes, cur) {
            Ok(next) => {
                cur = next;
            },
            Err(e) => {
                return Err(e);
            },
        }
        i += 1;
    }
    Ok(cur.mesh)
}

/// The reader of PLY files.
pub struct PlyLoader {}

impl PlyLoader {
    /// Reads a file: its vertices, and its triangles as indices into them.
    /// Every triangle of the result names vertices of the result.
    ///
    /// The lengths and indices of a floating type in an ASCII body are not
    /// read here: each is asked for with `NeedsWhole`.
    pub fn load(bytes: &[u8]) -> (r: Result<PlyMesh, PlyError>)
        ensures
            mesh_view(r) == ply_spec(bytes@, Seq::empty()),
            r is Ok ==> r->Ok_0@.well_formed(),
    {
        let wholes: Vec<Whole> = Vec::new();
        PlyLoader::load_with(bytes, &wholes)
    }

    /// Reads a file as `load` does, with the whole parts handed over for the
    /// lengths and indices of a floating type in an ASCII body. Where one
    /// is met that has none, it is asked for with `NeedsWhole`: the caller
    /// puts its whole part after those it handed over, and reads again.
    pub fn load_with(bytes: &[u8], wholes: &Vec<Whole>) -> (r: Result<PlyMesh, PlyError>)
        ensures
            mesh_view(r) == ply_spec(bytes@, wholes@),
            r is Ok ==> r->Ok_0@.well_formed(),
    {
        match read_header(bytes) {
            Err(e) => Err(e),
            Ok((desc, pos)) => {
                proof {
                    lemma_header_position(bytes@);
                }
                read_body(&desc, wholes, bytes, pos)
            },
        }
    }
}

} // verus!
