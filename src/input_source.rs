//! Units of processing, where they came from, and what can go wrong with them.
use vstd::prelude::*;

verus! {

#[verifier::external_type_specification]
#[verifier::external_body]
pub struct ExIoError(std::io::Error);

#[verifier::external_type_specification]
#[verifier::external_body]
pub struct ExJsonError(json::Error);

#[verifier::external_type_specification]
#[verifier::external_body]
pub struct ExXmlError(xml::reader::Error);

/// Where an entity, or an error, came from: a rough estimate that helps to find a problem in
/// the input data.
#[derive(Clone, Debug)]
pub enum PositionType {
    /// A file, with a row and a column within it.
    InFile(String, u64, u64),
    /// A file or a directory.
    InDirectory(String),
    /// No information available.
    Unknown,
}

/// The decimal digit for `d`.
pub open spec fn digit_of(d: nat) -> char {
    seq!['0', '1', '2', '3', '4', '5', '6', '7', '8', '9'][d as int]
}

/// The decimal notation of `n`.
pub open spec fn decimal(n: nat) -> Seq<char>
    decreases n,
{
    if n < 10 {
        seq![digit_of(n)]
    } else {
        decimal(n / 10).push(digit_of(n % 10))
    }
}

/// Appends the decimal notation of `n`.
fn push_decimal(out: &mut Vec<char>, n: u64)
    ensures
        final(out)@ == old(out)@ + decimal(n as nat),
    decreases n,
{
    let digits: [char; 10] = ['0', '1', '2', '3', '4', '5', '6', '7', '8', '9'];
    if n >= 10 {
        push_decimal(out, n / 10);
    }
    let d = (n % 10) as usize;
    assert(digits@ == seq!['0', '1', '2', '3', '4', '5', '6', '7', '8', '9']);
    out.push(digits[d]);
}

impl PositionType {
    /// The text shown for a position: the path, with `row:col` for a position in a file.
    pub open spec fn text(&self) -> Option<Seq<char>> {
        match self {
            PositionType::InDirectory(p) => Some(p@),
            PositionType::InFile(p, r, c) => Some(
                p@ + seq![':', ' '] + decimal(*r as nat) + seq![':'] + decimal(*c as nat),
            ),
            PositionType::Unknown => None,
        }
    }

    /// A string for the contained position: the path, followed by `: row:col` for a position
    /// within a file; nothing where no position is known.
    pub fn to_string(&self) -> (r: Option<String>)
        ensures
            r matches Some(s) ==> self.text() == Some(s@),
            r is None ==> self.text() is None,
    {
        match self {
            PositionType::InDirectory(p) => Some(p.clone()),
            PositionType::InFile(p, r, c) => {
                let mut out = crate::text::chars_of(p.as_str());
                out.push(':');
                out.push(' ');
                push_decimal(&mut out, *r);
                out.push(':');
                push_decimal(&mut out, *c);
                Some(crate::text::string_of(&out))
            },
            PositionType::Unknown => None,
        }
    }

    /// `InDirectory` for a known path, `None` otherwise.
    pub fn from_path(path: &Option<String>) -> (r: PositionType)
        ensures
            *path matches Some(p) ==> r == PositionType::InDirectory(p),
            *path is None ==> r == PositionType::Unknown,
    {
        match path {
            Some(p) => PositionType::InDirectory(p.clone()),
            None => PositionType::Unknown,
        }
    }

    /// A copy of this position.
    pub fn duplicate(&self) -> (r: PositionType)
        ensures
            r == *self,
    {
        match self {
            PositionType::InDirectory(p) => PositionType::InDirectory(p.clone()),
            PositionType::InFile(p, r, c) => PositionType::InFile(p.clone(), *r, *c),
            PositionType::Unknown => PositionType::Unknown,
        }
    }
}

/// What can go wrong while an entity is read or transformed; each error carries the position of
/// the entity it belongs to.
#[derive(Debug)]
pub enum TransformationError {
    /// Reading a file or an archive failed.
    IoError(std::io::Error, PositionType),
    /// The input does not have the expected structure; the message says how.
    ErrorneousStructure(String, PositionType),
    /// The input is not valid JSON.
    JsonError(json::Error, PositionType),
    /// The input is not valid XML.
    XmlParserERrror(xml::reader::Error, PositionType),
    /// The input bytes do not decode as text.
    EncodingError(String, PositionType),
    /// A language code that is unknown or that the source cannot use: the code and a message.
    InvalidLanguageError(String, String, PositionType),
}

impl TransformationError {
    /// The position that the error carries.
    pub open spec fn position(&self) -> PositionType {
        match self {
            TransformationError::IoError(_, p) => *p,
            TransformationError::ErrorneousStructure(_, p) => *p,
            TransformationError::JsonError(_, p) => *p,
            TransformationError::XmlParserERrror(_, p) => *p,
            TransformationError::EncodingError(_, p) => *p,
            TransformationError::InvalidLanguageError(_, _, p) => *p,
        }
    }

    /// The same error at another position.
    pub open spec fn at(self, pos: PositionType) -> TransformationError {
        match self {
            TransformationError::IoError(e, _) => TransformationError::IoError(e, pos),
            TransformationError::ErrorneousStructure(m, _) => TransformationError::ErrorneousStructure(m, pos),
            TransformationError::JsonError(e, _) => TransformationError::JsonError(e, pos),
            TransformationError::XmlParserERrror(e, _) => TransformationError::XmlParserERrror(e, pos),
            TransformationError::EncodingError(m, _) => TransformationError::EncodingError(m, pos),
            TransformationError::InvalidLanguageError(l, m, _) => TransformationError::InvalidLanguageError(l, m, pos),
        }
    }

    /// Replaces the position that the error carries, keeping everything else.
    pub fn inject_position(&mut self, pos: PositionType)
        ensures
            *final(self) == old(self).at(pos),
    {
        match self {
            TransformationError::IoError(_, p) => *p = pos,
            TransformationError::ErrorneousStructure(_, p) => *p = pos,
            TransformationError::JsonError(_, p) => *p = pos,
            TransformationError::XmlParserERrror(_, p) => *p = pos,
            TransformationError::EncodingError(_, p) => *p = pos,
            TransformationError::InvalidLanguageError(_, _, p) => *p = pos,
        }
    }
}

/// The smallest unit of processing: an article, a book or a segment, with where it came from.
pub struct Entity {
    pub content: String,
    pub position: PositionType,
}

impl Entity {
    /// An entity read from the file at `p`.
    pub fn with_path(c: String, p: String) -> (r: Entity)
        ensures
            r.content == c,
            r.position == PositionType::InDirectory(p),
    {
        Entity { content: c, position: PositionType::InDirectory(p) }
    }

    /// An entity found at a given line and column of the file at `path`.
    pub fn with_exact_pos(content: String, path: String, line: u64, col: u64) -> (r: Entity)
        ensures
            r.content == content,
            r.position == PositionType::InFile(path, line, col),
    {
        Entity { content, position: PositionType::InFile(path, line, col) }
    }

    /// Replaces the content, keeping the position.
    pub fn update_content(&mut self, c: String)
        ensures
            final(self).content == c,
            final(self).position == old(self).position,
    {
        self.content = c;
    }
}

/// The markup that the document parser is asked to read.
#[derive(Clone, Copy, Debug, PartialEq, Eq, Structural)]
pub enum InputFormat {
    Markdown,
    MediaWiki,
}

/// Strips formatting from one kind of source: the preprocessing that the document parser
/// needs, and the markup it reads afterwards.
pub trait Unformatter {
    /// Whether the source needs preprocessing before the document parser.
    spec fn needs_preprocessing(&self) -> bool;

    /// The markup of the source.
    spec fn markup(&self) -> InputFormat;

    /// What preprocessing makes of a document's content, or `None` where it refuses it.
    spec fn preprocessed_text(&self, content: Seq<char>) -> Option<Seq<char>>;

    /// Whether `preprocess` must run before the document parser.
    fn is_preprocessing_required(&self) -> (r: bool)
        ensures
            r == self.needs_preprocessing(),
    ;

    /// The markup of the source.
    fn get_input_format(&self) -> (r: InputFormat)
        ensures
            r == self.markup(),
    ;

    /// Removes what the document parser cannot read, or what does not belong in the corpus;
    /// see `preprocessed_text`. Where that refuses the content, it fails with a structural
    /// error. The result, or the error, carries the entity's position.
    fn preprocess(&self, input: &Entity) -> (r: Result<Entity, TransformationError>)
        ensures
            match self.preprocessed_text(input.content@) {
                Some(t) => r matches Ok(e) && e.content@ == t && e.position == input.position,
                None => r matches Err(TransformationError::ErrorneousStructure(_, p)) && p
                    == input.position,
            },
    ;
}

} // verus!
