//! The structural parts of a PDF file as typed values.
use vstd::prelude::*;

verus! {

/// The structural keywords that the reader looks for, in the order in which
/// they are handed to the scanner.
#[derive(Clone, Copy, Debug, PartialEq, Eq, Structural)]
pub enum Keyword {
    /// `%PDF-`: the start of the header.
    Header,
    /// `\nxref\n`: the start of the cross-reference table.
    CrossReference,
    /// `trailer\n`: the start of the trailer.
    Trailer,
    /// ` obj\n`: the start of an indirect object.
    ObjectStart,
    /// `endobj\n`: the end of an indirect object.
    ObjectEnd,
}

/// One occurrence of a keyword: the keyword and the byte range `start..end`
/// that it covers.
#[derive(Clone, Copy, Debug, PartialEq, Eq, Structural)]
pub struct KeywordMatch {
    pub keyword: Keyword,
    pub start: usize,
    pub end: usize,
}

/// Why a file could not be read.
#[derive(Clone, Copy, Debug, PartialEq, Eq, Structural)]
pub enum ParseError {
    /// The bytes could not be obtained from their source.
    IoFailure,
    /// A required keyword (`%PDF-`, `xref` or `trailer`) does not occur.
    MissingStructuralKeyword(Keyword),
    MalformedHeader,
    MalformedCrossReferenceSection,
    MalformedTrailer,
    /// The object start and end markers cannot be paired.
    ObjectBoundaryMismatch,
}

/// A basic PDF file: a header, a body of indirect objects, a cross-reference
/// table and a trailer. The body is held as the byte range of each object.
#[derive(Clone, Debug, PartialEq, Eq)]
pub struct PDF {
    pub header: Header,
    pub cross_ref_table: CrossRefTable,
    pub trailer: Trailer,
    pub objects: Vec<ObjectSpan>,
}

pub struct PDFModel {
    pub header: HeaderModel,
    pub cross_ref_table: Seq<SubsectionModel>,
    pub trailer: Seq<(TrailerKey, TrailerValueModel)>,
    pub objects: Seq<ObjectSpan>,
}

impl View for PDF {
    type V = PDFModel;

    open spec fn view(&self) -> PDFModel {
        PDFModel {
            header: self.header@,
            cross_ref_table: self.cross_ref_table@,
            trailer: self.trailer@,
            objects: self.objects@,
        }
    }
}

/// The header: the version named on the first line, and whether the line
/// after it holds a byte of 128 or more, which marks a file with binary data.
#[derive(Clone, Debug, PartialEq, Eq)]
pub struct Header {
    pub version: String,
    pub has_binary_comment: bool,
}

pub struct HeaderModel {
    pub version: Seq<char>,
    pub has_binary_comment: bool,
}

impl View for Header {
    type V = HeaderModel;

    open spec fn view(&self) -> HeaderModel {
        HeaderModel { version: self.version@, has_binary_comment: self.has_binary_comment }
    }
}

/// The cross-reference table: the index from object numbers to byte offsets.
#[derive(Clone, Debug, PartialEq, Eq)]
pub struct CrossRefTable {
    pub subsections: Vec<Subsection>,
}

impl View for CrossRefTable {
    type V = Seq<SubsectionModel>;

    open spec fn view(&self) -> Seq<SubsectionModel> {
        self.subsections@.map_values(|s: Subsection| s@)
    }
}

/// A contiguous run of entries, for the objects numbered
/// `start_object_number .. start_object_number + entry_count`.
#[derive(Clone, Debug, PartialEq, Eq)]
pub struct Subsection {
    pub start_object_number: u64,
    pub entry_count: u64,
    pub entries: Vec<SubsectionEntry>,
}

pub struct SubsectionModel {
    pub start_object_number: u64,
    pub entry_count: u64,
    pub entries: Seq<SubsectionEntry>,
}

impl View for Subsection {
    type V = SubsectionModel;

    open spec fn view(&self) -> SubsectionModel {
        SubsectionModel {
            start_object_number: self.start_object_number,
            entry_count: self.entry_count,
            entries: self.entries@,
        }
    }
}

impl Subsection {
    /// The entry count agrees with the entries held.
    pub open spec fn wf(&self) -> bool {
        self.entries@.len() == self.entry_count
    }
}

/// One cross-reference entry. Written out it takes exactly 20 bytes: a
/// 10-digit offset, a space, a 5-digit generation number, a space, `n` for an
/// entry in use or `f` for a free one, and a two-byte end of line.
#[derive(Clone, Copy, Debug, PartialEq, Eq, Structural)]
pub struct SubsectionEntry {
    pub byte_offset: u64,
    pub generation_number: u32,
    pub in_use: bool,
}

/// The trailer dictionary, its entries in the order written.
#[derive(Clone, Debug, PartialEq, Eq)]
pub struct Trailer {
    pub entries: Vec<(TrailerKey, TrailerValue)>,
}

impl View for Trailer {
    type V = Seq<(TrailerKey, TrailerValueModel)>;

    open spec fn view(&self) -> Seq<(TrailerKey, TrailerValueModel)> {
        self.entries@.map_values(|e: (TrailerKey, TrailerValue)| (e.0, e.1@))
    }
}

/// The keys of a trailer dictionary; any other key is `Unknown`.
#[derive(Clone, Copy, Debug, PartialEq, Eq, Structural)]
pub enum TrailerKey {
    Size,
    Prev,
    Root,
    Encrypt,
    Info,
    ID,
    Unknown,
}

/// Whether an indirect object is written as a definition (`obj`) or a
/// reference (`R`).
#[derive(Clone, Copy, Debug, PartialEq, Eq, Structural)]
pub enum ObjectStatus {
    Definition,
    Reference,
    Unknown,
}

/// The value of a trailer entry.
#[derive(Clone, Debug, PartialEq, Eq)]
pub enum TrailerValue {
    Integer(i64),
    IndirectReference { object_number: i64, generation_number: i64, kind: ObjectStatus },
    HexStringArray(Vec<String>),
    Opaque(Vec<u8>),
}

pub enum TrailerValueModel {
    Integer(i64),
    IndirectReference { object_number: i64, generation_number: i64, kind: ObjectStatus },
    HexStringArray(Seq<Seq<char>>),
    Opaque(Seq<u8>),
}

impl View for TrailerValue {
    type V = TrailerValueModel;

    open spec fn view(&self) -> TrailerValueModel {
        match self {
            TrailerValue::Integer(i) => TrailerValueModel::Integer(*i),
            TrailerValue::IndirectReference { object_number, generation_number, kind } =>
                TrailerValueModel::IndirectReference {
                object_number: *object_number,
                generation_number: *generation_number,
                kind: *kind,
            },
            TrailerValue::HexStringArray(v) => TrailerValueModel::HexStringArray(
                v@.map_values(|s: String| s@),
            ),
            TrailerValue::Opaque(b) => TrailerValueModel::Opaque(b@),
        }
    }
}

/// The byte range `start_offset..end_offset` of one indirect object, from
/// its ` obj` marker to the start of its `endobj` marker.
#[derive(Clone, Copy, Debug, PartialEq, Eq, Structural)]
pub struct ObjectSpan {
    pub start_offset: usize,
    pub end_offset: usize,
}

/// The nine basic types of PDF objects.
#[derive(Clone, Copy, Debug, PartialEq, Eq, Structural)]
pub enum ObjectTypes {
    Boolean,
    Integer,
    RealNumber,
    String,
    Name,
    Array,
    Dictionary,
    Stream,
    Null,
}

} // verus!
