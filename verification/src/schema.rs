//! Record schemas and the declarative notation they are written in.
//!
//! A schema is pure data: an ordered list of named fields, each with a wire
//! kind and an element type, plus record-level capability flags.  The
//! notation is a token sequence: a table name, optional bracketed pragmas, and
//! a braced list of `type name` pairs, where a type may be wrapped in a
//! structural keyword such as `Counted(uint16)`.

use vstd::prelude::*;
use crate::error::SchemaDefinitionError;

verus! {

/// How a group of tokens is delimited.
#[derive(Clone, Copy, Debug, PartialEq, Eq, Structural)]
pub enum Delimiter {
    /// `( ... )`
    Parenthesis,
    /// `{ ... }`
    Brace,
    /// `[ ... ]`
    Bracket,
    /// A group without visible delimiters.
    Invisible,
}

/// One token of the schema notation, or a delimited group of tokens.
#[derive(Debug, PartialEq, Eq)]
pub enum TokenTree {
    /// A delimited token sequence.
    Group(Delimiter, Vec<TokenTree>),
    /// An identifier.
    Ident(String),
    /// A single punctuation character.
    Punct(char),
    /// A literal, by its text.
    Literal(String),
}

/// The structural keyword a field is declared with.
#[derive(Clone, Copy, Debug, PartialEq, Eq, Structural)]
pub enum WireKind {
    /// No keyword: a value encoded in place.
    Scalar,
    /// `Maybe(T)`: an optional offset-addressed subtable.
    Maybe,
    /// `Counted(T)`: a 16-bit count followed by that many elements.
    Counted,
    /// `Counted32(T)`: a 32-bit count followed by that many elements.
    Counted32,
    /// `Offset16(T)`: a 16-bit distance to a subtable.
    Offset16,
    /// `Offset32(T)`: a 32-bit distance to a subtable.
    Offset32,
    /// `CountedOffset16(T)`: a counted sequence of 16-bit offsets.
    CountedOffset16,
    /// `CountedOffset32(T)`: a counted sequence of 32-bit offsets.
    CountedOffset32,
}

/// A bracketed annotation of a record or of a field.
#[derive(Clone, Copy, Debug, PartialEq, Eq, Structural)]
pub enum Pragma {
    /// `[embedded]` on a record.
    Embedded,
    /// `[nodebug]` on a record.
    NoDebug,
    /// `[noserialize]` on a record.
    NoSerialize,
    /// `[nodeserialize]` on a record.
    NoDeserialize,
    /// `[default]` on a record.
    Default,
    /// `[offset_base]` before a field.
    OffsetBase,
    /// `[embed]` before a field.
    Embed,
    /// Any other bracket group.
    Unknown,
}

/// The record-level capability toggles.
#[derive(Clone, Copy, Debug, PartialEq, Eq, Structural)]
pub struct TableFlags {
    /// The record is itself embedded in its parent.
    pub embedded: bool,
    /// Debug formatting is generated.
    pub debug: bool,
    /// Default construction is generated.
    pub default: bool,
    /// The record can be serialized.
    pub serialize: bool,
    /// The record can be deserialized.
    pub deserialize: bool,
}

/// One declared field of a record.
#[derive(Clone, Debug, PartialEq, Eq)]
pub struct FieldDecl {
    /// The field's name.
    pub name: String,
    /// The structural keyword it was declared with.
    pub kind: WireKind,
    /// The name of its element type.
    pub element: String,
    /// The field is the zero point of the offsets declared after it.
    pub offset_base: bool,
    /// The field's value is inlined rather than reached through an offset.
    pub embed: bool,
}

/// The declaration of one record type.
#[derive(Clone, Debug, PartialEq, Eq)]
pub struct RecordSchema {
    /// The record's name.
    pub name: String,
    /// The capability toggles.
    pub flags: TableFlags,
    /// The fields, in wire order.
    pub fields: Vec<FieldDecl>,
}

/// The mathematical content of a [`FieldDecl`].
pub struct FieldModel {
    pub name: Seq<char>,
    pub kind: WireKind,
    pub element: Seq<char>,
    pub offset_base: bool,
    pub embed: bool,
}

/// The mathematical content of a [`RecordSchema`].
pub struct RecordModel {
    pub name: Seq<char>,
    pub flags: TableFlags,
    pub fields: Seq<FieldModel>,
}

impl View for FieldDecl {
    type V = FieldModel;

    open spec fn view(&self) -> FieldModel {
        FieldModel {
            name: self.name@,
            kind: self.kind,
            element: self.element@,
            offset_base: self.offset_base,
            embed: self.embed,
        }
    }
}

/// The models of a sequence of field declarations.
pub open spec fn field_models(fields: Seq<FieldDecl>) -> Seq<FieldModel> {
    Seq::new(fields.len(), |i: int| fields[i]@)
}

impl View for RecordSchema {
    type V = RecordModel;

    open spec fn view(&self) -> RecordModel {
        RecordModel { name: self.name@, flags: self.flags, fields: field_models(self.fields@) }
    }
}

/// The models of a sequence of record declarations.
pub open spec fn record_models(records: Seq<RecordSchema>) -> Seq<RecordModel> {
    Seq::new(records.len(), |i: int| records[i]@)
}

/// The flags of a record that carries no pragma.
pub open spec fn default_flags() -> TableFlags {
    TableFlags { embedded: false, debug: true, default: false, serialize: true, deserialize: true }
}

/// The pragma that a word between brackets stands for.
pub open spec fn pragma_word(word: Seq<char>) -> Pragma {
    if word == "embedded"@ {
        Pragma::Embedded
    } else if word == "nodebug"@ {
        Pragma::NoDebug
    } else if word == "noserialize"@ {
        Pragma::NoSerialize
    } else if word == "default"@ {
        Pragma::Default
    } else if word == "nodeserialize"@ {
        Pragma::NoDeserialize
    } else if word == "offset_base"@ {
        Pragma::OffsetBase
    } else if word == "embed"@ {
        Pragma::Embed
    } else {
        Pragma::Unknown
    }
}

/// The pragma that a token is, if it is a bracket group at all.
pub open spec fn pragma_of(token: TokenTree) -> Option<Pragma> {
    match token {
        TokenTree::Group(Delimiter::Bracket, stream) => Some(
            if stream@.len() == 1 {
                match stream@[0] {
                    TokenTree::Ident(word) => pragma_word(word@),
                    _ => Pragma::Unknown,
                }
            } else {
                Pragma::Unknown
            },
        ),
        _ => None,
    }
}

/// The structural keyword that an identifier is, if it is one.
pub open spec fn keyword_of(word: Seq<char>) -> Option<WireKind> {
    if word == "Maybe"@ {
        Some(WireKind::Maybe)
    } else if word == "Counted"@ {
        Some(WireKind::Counted)
    } else if word == "Counted32"@ {
        Some(WireKind::Counted32)
    } else if word == "Offset16"@ {
        Some(WireKind::Offset16)
    } else if word == "Offset32"@ {
        Some(WireKind::Offset32)
    } else if word == "CountedOffset16"@ {
        Some(WireKind::CountedOffset16)
    } else if word == "CountedOffset32"@ {
        Some(WireKind::CountedOffset32)
    } else {
        None
    }
}

/// The in-memory type that stands for a wire type whose storage form differs
/// from the form a user works with.
pub open spec fn special_type_of(word: Seq<char>) -> Option<Seq<char>> {
    if word == "Fixed"@ {
        Some("f32"@)
    } else if word == "F2DOT14"@ {
        Some("f32"@)
    } else if word == "LONGDATETIME"@ {
        Some("chrono::NaiveDateTime"@)
    } else {
        None
    }
}

/// The token at `pos`, if there is one.
pub open spec fn token_at(tokens: Seq<TokenTree>, pos: int) -> Option<TokenTree> {
    if 0 <= pos < tokens.len() {
        Some(tokens[pos])
    } else {
        None
    }
}

/// The token behind an optional reference.
pub open spec fn owned(item: Option<&TokenTree>) -> Option<TokenTree> {
    match item {
        Some(token) => Some(*token),
        None => None,
    }
}

/// The text of an identifier token; an error for anything else.
pub open spec fn ident_of(item: Option<TokenTree>) -> Result<Seq<char>, SchemaDefinitionError> {
    match item {
        Some(TokenTree::Ident(word)) => Ok(word@),
        Some(_) => Err(SchemaDefinitionError::ExpectedIdent),
        None => Err(SchemaDefinitionError::UnexpectedEnd),
    }
}

/// The contents of a group token with the given delimiter; an error for anything else.
pub open spec fn group_of(item: Option<TokenTree>, delimiter: Delimiter) -> Result<
    Seq<TokenTree>,
    SchemaDefinitionError,
> {
    match item {
        Some(TokenTree::Group(d, stream)) => if d == delimiter {
            Ok(stream@)
        } else {
            Err(SchemaDefinitionError::ExpectedGroup)
        },
        Some(_) => Err(SchemaDefinitionError::ExpectedGroup),
        None => Err(SchemaDefinitionError::UnexpectedEnd),
    }
}

/// Whether `word` holds exactly the characters of `text`.
pub(crate) fn is_word(word: &String, text: &str) -> (b: bool)
    ensures
        b == (word@ == text@),
{
    *word == String::from_str(text)
}

/// The pragma that a token is, if it is a bracket group at all.
pub fn has_pragma(item: Option<&TokenTree>) -> (r: Option<Pragma>)
    ensures
        r == match owned(item) {
            Some(token) => pragma_of(token),
            None => None,
        },
{
    match item {
        Some(TokenTree::Group(delimiter, stream)) => {
            if *delimiter == Delimiter::Bracket {
                if stream.len() == 1 {
                    match &stream[0] {
                        TokenTree::Ident(word) => Some(pragma_from_word(word)),
                        _ => Some(Pragma::Unknown),
                    }
                } else {
                    Some(Pragma::Unknown)
                }
            } else {
                None
            }
        },
        _ => None,
    }
}

/// The pragma that a word between brackets stands for.
fn pragma_from_word(word: &String) -> (p: Pragma)
    ensures
        p == pragma_word(word@),
{
    if is_word(word, "embedded") {
        Pragma::Embedded
    } else if is_word(word, "nodebug") {
        Pragma::NoDebug
    } else if is_word(word, "noserialize") {
        Pragma::NoSerialize
    } else if is_word(word, "default") {
        Pragma::Default
    } else if is_word(word, "nodeserialize") {
        Pragma::NoDeserialize
    } else if is_word(word, "offset_base") {
        Pragma::OffsetBase
    } else if is_word(word, "embed") {
        Pragma::Embed
    } else {
        Pragma::Unknown
    }
}

/// The structural keyword that an identifier is, if it is one.
pub fn keyword(word: &String) -> (k: Option<WireKind>)
    ensures
        k == keyword_of(word@),
{
    if is_word(word, "Maybe") {
        Some(WireKind::Maybe)
    } else if is_word(word, "Counted") {
        Some(WireKind::Counted)
    } else if is_word(word, "Counted32") {
        Some(WireKind::Counted32)
    } else if is_word(word, "Offset16") {
        Some(WireKind::Offset16)
    } else if is_word(word, "Offset32") {
        Some(WireKind::Offset32)
    } else if is_word(word, "CountedOffset16") {
        Some(WireKind::CountedOffset16)
    } else if is_word(word, "CountedOffset32") {
        Some(WireKind::CountedOffset32)
    } else {
        None
    }
}

/// The in-memory type to use for a wire type whose storage form is an
/// artefact of the format: fixed-point numbers are handled as `f32`, and the
/// long date as a calendar timestamp.
pub fn special_type(t: &String) -> (r: Option<&'static str>)
    ensures
        match r {
            Some(s) => special_type_of(t@) == Some(s@),
            None => special_type_of(t@).is_none(),
        },
{
    if is_word(t, "Fixed") {
        Some("f32")
    } else if is_word(t, "F2DOT14") {
        Some("f32")
    } else if is_word(t, "LONGDATETIME") {
        Some("chrono::NaiveDateTime")
    } else {
        None
    }
}

/// The text of an identifier token; an error for anything else.
pub fn expect_ident(item: Option<&TokenTree>) -> (r: Result<String, SchemaDefinitionError>)
    ensures
        match r {
            Ok(word) => ident_of(owned(item)) == Ok::<Seq<char>, SchemaDefinitionError>(word@),
            Err(e) => ident_of(owned(item)) == Err::<Seq<char>, SchemaDefinitionError>(e),
        },
{
    match item {
        Some(TokenTree::Ident(word)) => Ok(word.clone()),
        Some(_) => Err(SchemaDefinitionError::ExpectedIdent),
        None => Err(SchemaDefinitionError::UnexpectedEnd),
    }
}

/// The contents of a group token with the given delimiter; an error for anything else.
pub fn expect_group<'a>(item: Option<&'a TokenTree>, delimiter: Delimiter) -> (r: Result<
    &'a Vec<TokenTree>,
    SchemaDefinitionError,
>)
    ensures
        match r {
            Ok(stream) => group_of(owned(item), delimiter) == Ok::<
                Seq<TokenTree>,
                SchemaDefinitionError,
            >(stream@),
            Err(e) => group_of(owned(item), delimiter) == Err::<
                Seq<TokenTree>,
                SchemaDefinitionError,
            >(e),
        },
{
    match item {
        Some(TokenTree::Group(d, stream)) => {
            if *d == delimiter {
                Ok(stream)
            } else {
                Err(SchemaDefinitionError::ExpectedGroup)
            }
        },
        Some(_) => Err(SchemaDefinitionError::ExpectedGroup),
        None => Err(SchemaDefinitionError::UnexpectedEnd),
    }
}

/// The flags after one more record-level pragma; `None` for a pragma that no record takes.
pub open spec fn apply_table_pragma(flags: TableFlags, pragma: Pragma) -> Option<TableFlags> {
    match pragma {
        Pragma::Embedded => Some(TableFlags { embedded: true, ..flags }),
        Pragma::NoDebug => Some(TableFlags { debug: false, ..flags }),
        Pragma::NoSerialize => Some(TableFlags { serialize: false, ..flags }),
        Pragma::Default => Some(TableFlags { default: true, ..flags }),
        Pragma::NoDeserialize => Some(TableFlags { deserialize: false, ..flags }),
        _ => None,
    }
}

/// The run of record-level pragmas that starts at `pos`: the flags after
/// them, and how many tokens they take.
pub open spec fn table_pragmas(tokens: Seq<TokenTree>, pos: int, flags: TableFlags) -> Result<
    (TableFlags, nat),
    SchemaDefinitionError,
>
    decreases tokens.len() - pos,
{
    match token_at(tokens, pos) {
        None => Ok((flags, 0nat)),
        Some(token) => match pragma_of(token) {
            None => Ok((flags, 0nat)),
            Some(pragma) => match apply_table_pragma(flags, pragma) {
                None => Err(SchemaDefinitionError::UnknownPragma),
                Some(next) => match table_pragmas(tokens, pos + 1, next) {
                    Ok((last, n)) => Ok((last, n + 1)),
                    Err(e) => Err(e),
                },
            },
        },
    }
}

/// The element type named between the parentheses of a structural keyword:
/// the first token, which must be an identifier.
pub open spec fn element_of(inner: Seq<TokenTree>) -> Result<Seq<char>, SchemaDefinitionError> {
    if inner.len() == 0 {
        Err(SchemaDefinitionError::MissingElementType)
    } else {
        ident_of(Some(inner[0]))
    }
}

/// The field declared at `pos`, and how many tokens it takes: `type name`, or
/// `Keyword(type) name`.
pub open spec fn field_at(stream: Seq<TokenTree>, pos: int, offset_base: bool, embed: bool)
    -> Result<(FieldModel, nat), SchemaDefinitionError> {
    match ident_of(token_at(stream, pos)) {
        Err(e) => Err(e),
        Ok(word) => match keyword_of(word) {
            Some(kind) => match group_of(token_at(stream, pos + 1), Delimiter::Parenthesis) {
                Err(e) => Err(e),
                Ok(inner) => match element_of(inner) {
                    Err(e) => Err(e),
                    Ok(element) => match ident_of(token_at(stream, pos + 2)) {
                        Err(e) => Err(e),
                        Ok(name) => Ok(
                            (FieldModel { name, kind, element, offset_base, embed }, 3nat),
                        ),
                    },
                },
            },
            None => match ident_of(token_at(stream, pos + 1)) {
                Err(e) => Err(e),
                Ok(name) => Ok(
                    (
                        FieldModel {
                            name,
                            kind: WireKind::Scalar,
                            element: word,
                            offset_base,
                            embed,
                        },
                        2nat,
                    ),
                ),
            },
        },
    }
}

/// `rest` with `prefix` put in front of it, where `rest` is a success.
pub open spec fn with_prefix<T>(prefix: Seq<T>, rest: Result<Seq<T>, SchemaDefinitionError>)
    -> Result<Seq<T>, SchemaDefinitionError> {
    match rest {
        Ok(items) => Ok(prefix + items),
        Err(e) => Err(e),
    }
}

/// The fields declared from `pos` to the end of a braced group.  The two
/// flags are the field pragmas met since the last field; they go to the next
/// field, and a pragma with no field after it is an error.
pub open spec fn fields_from(stream: Seq<TokenTree>, pos: int, offset_base: bool, embed: bool)
    -> Result<Seq<FieldModel>, SchemaDefinitionError>
    decreases stream.len() - pos,
{
    match token_at(stream, pos) {
        None => if offset_base || embed {
            Err(SchemaDefinitionError::DanglingPragma)
        } else {
            Ok(Seq::empty())
        },
        Some(token) => match pragma_of(token) {
            Some(Pragma::OffsetBase) => fields_from(stream, pos + 1, true, embed),
            Some(Pragma::Embed) => fields_from(stream, pos + 1, offset_base, true),
            Some(_) => Err(SchemaDefinitionError::UnknownPragma),
            None => match field_at(stream, pos, offset_base, embed) {
                Err(e) => Err(e),
                Ok((field, taken)) => with_prefix(
                    seq![field],
                    fields_from(stream, pos + taken, false, false),
                ),
            },
        },
    }
}

/// The record declared at `pos`, and how many tokens it takes: a name, any
/// number of record-level pragmas, and a braced field list.
pub open spec fn table_at(tokens: Seq<TokenTree>, pos: int) -> Result<
    (RecordModel, nat),
    SchemaDefinitionError,
> {
    match ident_of(token_at(tokens, pos)) {
        Err(e) => Err(e),
        Ok(name) => match table_pragmas(tokens, pos + 1, default_flags()) {
            Err(e) => Err(e),
            Ok((flags, n)) => match group_of(token_at(tokens, pos + 1 + n), Delimiter::Brace) {
                Err(e) => Err(e),
                Ok(stream) => match fields_from(stream, 0, false, false) {
                    Err(e) => Err(e),
                    Ok(fields) => Ok((RecordModel { name, flags, fields }, n + 2)),
                },
            },
        },
    }
}

/// The records declared from `pos` to the end of the input.
pub open spec fn tables_from(tokens: Seq<TokenTree>, pos: int) -> Result<
    Seq<RecordModel>,
    SchemaDefinitionError,
>
    decreases tokens.len() - pos,
{
    match token_at(tokens, pos) {
        None => Ok(Seq::empty()),
        Some(_) => match table_at(tokens, pos) {
            Err(e) => Err(e),
            Ok((record, taken)) => with_prefix(seq![record], tables_from(tokens, pos + taken)),
        },
    }
}

/// The schema that a token sequence declares: every record in it, in order,
/// or the first error met.
pub open spec fn parse_tables(tokens: Seq<TokenTree>) -> Result<
    Seq<RecordModel>,
    SchemaDefinitionError,
> {
    tables_from(tokens, 0)
}

/// The token at `pos`, if there is one.
fn token(tokens: &Vec<TokenTree>, pos: usize) -> (r: Option<&TokenTree>)
    ensures
        owned(r) == token_at(tokens@, pos as int),
{
    if pos < tokens.len() {
        Some(&tokens[pos])
    } else {
        None
    }
}

/// The flags after one more record-level pragma.
fn table_pragma(flags: TableFlags, pragma: Pragma) -> (r: Option<TableFlags>)
    ensures
        r == apply_table_pragma(flags, pragma),
{
    match pragma {
        Pragma::Embedded => Some(
            TableFlags {
                embedded: true,
                debug: flags.debug,
                default: flags.default,
                serialize: flags.serialize,
                deserialize: flags.deserialize,
            },
        ),
        Pragma::NoDebug => Some(
            TableFlags {
                embedded: flags.embedded,
                debug: false,
                default: flags.default,
                serialize: flags.serialize,
                deserialize: flags.deserialize,
            },
        ),
        Pragma::NoSerialize => Some(
            TableFlags {
                embedded: flags.embedded,
                debug: flags.debug,
                default: flags.default,
                serialize: false,
                deserialize: flags.deserialize,
            },
        ),
        Pragma::Default => Some(
            TableFlags {
                embedded: flags.embedded,
                debug: flags.debug,
                default: true,
                serialize: flags.serialize,
                deserialize: flags.deserialize,
            },
        ),
        Pragma::NoDeserialize => Some(
            TableFlags {
                embedded: flags.embedded,
                debug: flags.debug,
                default: flags.default,
                serialize: flags.serialize,
                deserialize: false,
            },
        ),
        _ => None,
    }
}

/// Read the field declared at `pos`.
fn parse_field(stream: &Vec<TokenTree>, pos: usize, offset_base: bool, embed: bool) -> (r: Result<
    (FieldDecl, usize),
    SchemaDefinitionError,
>)
    requires
        pos < stream@.len(),
    ensures
        match r {
            Ok((field, taken)) => field_at(stream@, pos as int, offset_base, embed) == Ok::<
                (FieldModel, nat),
                SchemaDefinitionError,
            >((field@, taken as nat)) && pos + taken <= stream@.len(),
            Err(e) => field_at(stream@, pos as int, offset_base, embed) == Err::<
                (FieldModel, nat),
                SchemaDefinitionError,
            >(e),
        },
{
    let len: usize = stream.len();
    let word = match expect_ident(token(stream, pos)) {
        Ok(word) => word,
        Err(e) => { return Err(e); },
    };
    match keyword(&word) {
        Some(kind) => {
            let inner = match expect_group(token(stream, pos + 1), Delimiter::Parenthesis) {
                Ok(inner) => inner,
                Err(e) => { return Err(e); },
            };
            if inner.len() == 0 {
                return Err(SchemaDefinitionError::MissingElementType);
            }
            let element = match expect_ident(Some(&inner[0])) {
                Ok(element) => element,
                Err(e) => { return Err(e); },
            };
            let name = match expect_ident(token(stream, pos + 2)) {
                Ok(name) => name,
                Err(e) => { return Err(e); },
            };
            Ok((FieldDecl { name, kind, element, offset_base, embed }, 3))
        },
        None => {
            let name = match expect_ident(token(stream, pos + 1)) {
                Ok(name) => name,
                Err(e) => { return Err(e); },
            };
            Ok((FieldDecl { name, kind: WireKind::Scalar, element: word, offset_base, embed }, 2))
        },
    }
}

/// Read every field of a braced group.
fn parse_fields(stream: &Vec<TokenTree>) -> (r: Result<Vec<FieldDecl>, SchemaDefinitionError>)
    ensures
        match r {
            Ok(fields) => fields_from(stream@, 0, false, false) == Ok::<
                Seq<FieldModel>,
                SchemaDefinitionError,
            >(field_models(fields@)),
            Err(e) => fields_from(stream@, 0, false, false) == Err::<
                Seq<FieldModel>,
                SchemaDefinitionError,
            >(e),
        },
{
    let mut fields: Vec<FieldDecl> = Vec::new();
    let mut pos: usize = 0;
    let mut offset_base = false;
    let mut embed = false;
    assert(field_models(fields@) + Seq::<FieldModel>::empty() =~= Seq::<FieldModel>::empty());
    while pos < stream.len()
        invariant
            pos <= stream@.len(),
            fields_from(stream@, 0, false, false) == with_prefix(
                field_models(fields@),
                fields_from(stream@, pos as int, offset_base, embed),
            ),
        decreases stream@.len() - pos,
    {
        match has_pragma(token(stream, pos)) {
            Some(Pragma::OffsetBase) => {
                offset_base = true;
                pos = pos + 1;
            },
            Some(Pragma::Embed) => {
                embed = true;
                pos = pos + 1;
            },
            Some(_) => {
                return Err(SchemaDefinitionError::UnknownPragma);
            },
            None => {
                match parse_field(stream, pos, offset_base, embed) {
                    Err(e) => {
                        return Err(e);
                    },
                    Ok((field, taken)) => {
                        proof {
                            let rest = fields_from(stream@, pos + taken, false, false);
                            let before = field_models(fields@);
                            let after = field_models(fields@.push(field));
                            assert(after =~= before + seq![field@]);
                            if let Ok(items) = rest {
                                assert(before + (seq![field@] + items) =~= after + items);
                            }
                        }
                        fields.push(field);
                        offset_base = false;
                        embed = false;
                        pos = pos + taken;
                    },
                }
            },
        }
    }
    if offset_base || embed {
        return Err(SchemaDefinitionError::DanglingPragma);
    }
    assert(field_models(fields@) + Seq::<FieldModel>::empty() =~= field_models(fields@));
    Ok(fields)
}

/// `rest` with `taken` more tokens counted.
pub open spec fn with_taken(taken: nat, rest: Result<(TableFlags, nat), SchemaDefinitionError>)
    -> Result<(TableFlags, nat), SchemaDefinitionError> {
    match rest {
        Ok((flags, n)) => Ok((flags, n + taken)),
        Err(e) => Err(e),
    }
}

/// Read the run of record-level pragmas that starts at `start`.
fn parse_table_pragmas(tokens: &Vec<TokenTree>, start: usize) -> (r: Result<
    (TableFlags, usize),
    SchemaDefinitionError,
>)
    requires
        start <= tokens@.len(),
    ensures
        match r {
            Ok((flags, n)) => table_pragmas(tokens@, start as int, default_flags()) == Ok::<
                (TableFlags, nat),
                SchemaDefinitionError,
            >((flags, n as nat)) && start + n <= tokens@.len(),
            Err(e) => table_pragmas(tokens@, start as int, default_flags()) == Err::<
                (TableFlags, nat),
                SchemaDefinitionError,
            >(e),
        },
{
    let mut flags = TableFlags {
        embedded: false,
        debug: true,
        default: false,
        serialize: true,
        deserialize: true,
    };
    let mut pos: usize = start;
    let len: usize = tokens.len();
    loop
        invariant
            len == tokens@.len(),
            start <= pos <= tokens@.len(),
            table_pragmas(tokens@, start as int, default_flags()) == with_taken(
                (pos - start) as nat,
                table_pragmas(tokens@, pos as int, flags),
            ),
        decreases tokens@.len() - pos,
    {
        match has_pragma(token(tokens, pos)) {
            None => {
                return Ok((flags, pos - start));
            },
            Some(pragma) => {
                match table_pragma(flags, pragma) {
                    None => {
                        return Err(SchemaDefinitionError::UnknownPragma);
                    },
                    Some(next) => {
                        flags = next;
                        pos = pos + 1;
                    },
                }
            },
        }
    }
}

/// Read the record declared at `pos`.
fn parse_table(tokens: &Vec<TokenTree>, pos: usize) -> (r: Result<
    (RecordSchema, usize),
    SchemaDefinitionError,
>)
    requires
        pos < tokens@.len(),
    ensures
        match r {
            Ok((record, taken)) => table_at(tokens@, pos as int) == Ok::<
                (RecordModel, nat),
                SchemaDefinitionError,
            >((record@, taken as nat)) && pos + taken <= tokens@.len() && taken >= 2,
            Err(e) => table_at(tokens@, pos as int) == Err::<
                (RecordModel, nat),
                SchemaDefinitionError,
            >(e),
        },
{
    let len: usize = tokens.len();
    let name = match expect_ident(token(tokens, pos)) {
        Ok(name) => name,
        Err(e) => { return Err(e); },
    };
    let (flags, n) = match parse_table_pragmas(tokens, pos + 1) {
        Ok(found) => found,
        Err(e) => { return Err(e); },
    };
    let stream = match expect_group(token(tokens, pos + 1 + n), Delimiter::Brace) {
        Ok(stream) => stream,
        Err(e) => { return Err(e); },
    };
    let fields = match parse_fields(stream) {
        Ok(fields) => fields,
        Err(e) => { return Err(e); },
    };
    Ok((RecordSchema { name, flags, fields }, n + 2))
}

/// Read a whole schema: every record that the token sequence declares, in
/// order.  The first malformed declaration ends the reading with its error,
/// and no record is returned.
pub fn expand_tables(item: &Vec<TokenTree>) -> (r: Result<Vec<RecordSchema>, SchemaDefinitionError>)
    ensures
        match r {
            Ok(records) => parse_tables(item@) == Ok::<Seq<RecordModel>, SchemaDefinitionError>(
                record_models(records@),
            ),
            Err(e) => parse_tables(item@) == Err::<Seq<RecordModel>, SchemaDefinitionError>(e),
        },
{
    let mut records: Vec<RecordSchema> = Vec::new();
    let mut pos: usize = 0;
    assert(record_models(records@) + Seq::<RecordModel>::empty() =~= Seq::<RecordModel>::empty());
    while pos < item.len()
        invariant
            pos <= item@.len(),
            tables_from(item@, 0) == with_prefix(
                record_models(records@),
                tables_from(item@, pos as int),
            ),
        decreases item@.len() - pos,
    {
        match parse_table(item, pos) {
            Err(e) => {
                return Err(e);
            },
            Ok((record, taken)) => {
                proof {
                    let rest = tables_from(item@, pos + taken);
                    let before = record_models(records@);
                    let after = record_models(records@.push(record));
                    assert(after =~= before + seq![record@]);
                    if let Ok(items) = rest {
                        assert(before + (seq![record@] + items) =~= after + items);
                    }
                }
                records.push(record);
                pos = pos + taken;
            },
        }
    }
    assert(record_models(records@) + Seq::<RecordModel>::empty() =~= record_models(records@));
    Ok(records)
}

/// The in-memory type of a declared field, as it is written in the record
/// type that the declaration stands for.
pub open spec fn field_type_text(field: FieldModel) -> Seq<char> {
    match field.kind {
        WireKind::Maybe => "Option<"@ + field.element + ">"@,
        WireKind::Counted => "Vec<"@ + field.element + ">"@,
        WireKind::Counted32 => "Vec<"@ + field.element + ">"@,
        WireKind::Offset16 => "Offset16<"@ + field.element + ">"@,
        WireKind::Offset32 => "Offset32<"@ + field.element + ">"@,
        WireKind::CountedOffset16 => "VecOffset16<"@ + field.element + ">"@,
        WireKind::CountedOffset32 => "VecOffset32<"@ + field.element + ">"@,
        WireKind::Scalar => match special_type_of(field.element) {
            Some(special) => special,
            None => field.element,
        },
    }
}

/// The codec that a declared field is read and written with, where it is
/// not the codec of its in-memory type.
pub open spec fn field_with_text(field: FieldModel) -> Option<Seq<char>> {
    match field.kind {
        WireKind::Counted => Some("Counted"@),
        WireKind::Counted32 => Some("Counted32"@),
        WireKind::CountedOffset16 => Some("Counted"@),
        WireKind::CountedOffset32 => Some("Counted"@),
        WireKind::Scalar => match special_type_of(field.element) {
            Some(_) => Some(field.element),
            None => None,
        },
        _ => None,
    }
}

/// `text` where `flag` holds, nothing where it does not.
pub open spec fn text_if(flag: bool, text: Seq<char>) -> Seq<char> {
    if flag {
        text
    } else {
        Seq::empty()
    }
}

/// The `with` attribute of a field, where it has one.
pub open spec fn field_with_attribute(field: FieldModel) -> Seq<char> {
    match field_with_text(field) {
        Some(with) => "#[otspec(with = \""@ + with + "\")]\n"@,
        None => Seq::empty(),
    }
}

/// The text of one field of a record type: its attributes, then
/// `pub name : type,`.
pub open spec fn field_text(field: FieldModel) -> Seq<char> {
    text_if(field.offset_base, "#[otspec(offset_base)]"@) + text_if(
        field.embed,
        "#[otspec(embed)]"@,
    ) + field_with_attribute(field) + "pub "@ + field.name + " : "@ + field_type_text(field)
        + ",\n"@
}

/// The text of the first `n` fields of a record type.
pub open spec fn fields_text(fields: Seq<FieldModel>, n: int) -> Seq<char>
    decreases n,
{
    if n <= 0 || n > fields.len() {
        Seq::empty()
    } else {
        fields_text(fields, n - 1) + field_text(fields[n - 1])
    }
}

/// The derive attribute of a record type: the derives that its capability
/// flags leave.
pub open spec fn derive_text(flags: TableFlags) -> Seq<char> {
    "#[derive("@ + text_if(flags.serialize, "otspec_macros::Serialize,"@) + " "@ + text_if(
        flags.deserialize,
        "otspec_macros::Deserialize,"@,
    ) + " "@ + text_if(flags.debug, "Debug,"@) + " "@ + text_if(flags.default, "Default,"@)
        + " PartialEq, Clone)]\n"@
}

/// The text of a record type up to its first field.
pub open spec fn head_text(record: RecordModel) -> Seq<char> {
    "/// Low-level structure used for serializing/deserializing table\n"@
        + "#[allow(missing_docs, non_snake_case, non_camel_case_types)]\n"@ + derive_text(
        record.flags,
    ) + text_if(record.flags.embedded, "#[otspec(embedded)]"@) + "\npub struct "@ + record.name
        + " {"@
}

/// The text of the record type that a declaration stands for: its derives,
/// its attributes, and its fields.
pub open spec fn record_text(record: RecordModel) -> Seq<char> {
    head_text(record) + fields_text(record.fields, record.fields.len() as int) + "}"@
}

/// The text of the record types of the first `n` declarations.
pub open spec fn tables_text(records: Seq<RecordModel>, n: int) -> Seq<char>
    decreases n,
{
    if n <= 0 || n > records.len() {
        Seq::empty()
    } else {
        tables_text(records, n - 1) + record_text(records[n - 1])
    }
}

/// Append the in-memory type of a field.
fn render_field_type(out: &mut String, field: &FieldDecl)
    ensures
        final(out)@ == old(out)@ + field_type_text(field@),
{
    let ghost before = out@;
    match field.kind {
        WireKind::Maybe => {
            out.append("Option<");
            out.append(field.element.as_str());
            out.append(">");
            assert(out@ =~= before + ("Option<"@ + field.element@ + ">"@));
        },
        WireKind::Counted | WireKind::Counted32 => {
            out.append("Vec<");
            out.append(field.element.as_str());
            out.append(">");
            assert(out@ =~= before + ("Vec<"@ + field.element@ + ">"@));
        },
        WireKind::Offset16 => {
            out.append("Offset16<");
            out.append(field.element.as_str());
            out.append(">");
            assert(out@ =~= before + ("Offset16<"@ + field.element@ + ">"@));
        },
        WireKind::Offset32 => {
            out.append("Offset32<");
            out.append(field.element.as_str());
            out.append(">");
            assert(out@ =~= before + ("Offset32<"@ + field.element@ + ">"@));
        },
        WireKind::CountedOffset16 => {
            out.append("VecOffset16<");
            out.append(field.element.as_str());
            out.append(">");
            assert(out@ =~= before + ("VecOffset16<"@ + field.element@ + ">"@));
        },
        WireKind::CountedOffset32 => {
            out.append("VecOffset32<");
            out.append(field.element.as_str());
            out.append(">");
            assert(out@ =~= before + ("VecOffset32<"@ + field.element@ + ">"@));
        },
        WireKind::Scalar => match special_type(&field.element) {
            Some(special) => {
                out.append(special);
            },
            None => {
                out.append(field.element.as_str());
            },
        },
    }
}

/// Append `piece` where `flag` holds.
fn append_if(out: &mut String, flag: bool, piece: &str)
    ensures
        final(out)@ == old(out)@ + text_if(flag, piece@),
{
    if flag {
        out.append(piece);
    } else {
        assert(out@ =~= out@ + Seq::<char>::empty());
    }
}

/// Append the `with` attribute of a field, where it has one.
fn render_field_with(out: &mut String, field: &FieldDecl)
    ensures
        final(out)@ == old(out)@ + field_with_attribute(field@),
{
    let ghost before = out@;
    match field.kind {
        WireKind::Counted | WireKind::CountedOffset16 | WireKind::CountedOffset32 => {
            out.append("#[otspec(with = \"");
            out.append("Counted");
            out.append("\")]\n");
            assert(out@ =~= before + ("#[otspec(with = \""@ + "Counted"@ + "\")]\n"@));
        },
        WireKind::Counted32 => {
            out.append("#[otspec(with = \"");
            out.append("Counted32");
            out.append("\")]\n");
            assert(out@ =~= before + ("#[otspec(with = \""@ + "Counted32"@ + "\")]\n"@));
        },
        WireKind::Scalar => match special_type(&field.element) {
            Some(_) => {
                out.append("#[otspec(with = \"");
                out.append(field.element.as_str());
                out.append("\")]\n");
                assert(out@ =~= before + ("#[otspec(with = \""@ + field.element@ + "\")]\n"@));
            },
            None => {
                assert(out@ =~= before + Seq::<char>::empty());
            },
        },
        _ => {
            assert(out@ =~= before + Seq::<char>::empty());
        },
    }
}

/// Append the text of one field.
fn render_field(out: &mut String, field: &FieldDecl)
    ensures
        final(out)@ == old(out)@ + field_text(field@),
{
    let ghost before = out@;
    let ghost a = text_if(field.offset_base, "#[otspec(offset_base)]"@);
    let ghost b = text_if(field.embed, "#[otspec(embed)]"@);
    let ghost c = field_with_attribute(field@);
    append_if(out, field.offset_base, "#[otspec(offset_base)]");
    append_if(out, field.embed, "#[otspec(embed)]");
    render_field_with(out, field);
    assert(out@ =~= before + (a + b + c));
    out.append("pub ");
    out.append(field.name.as_str());
    out.append(" : ");
    assert(out@ =~= before + (a + b + c + "pub "@ + field.name@ + " : "@));
    render_field_type(out, field);
    out.append(",\n");
    assert(out@ =~= before + (a + b + c + "pub "@ + field.name@ + " : "@ + field_type_text(
        field@,
    ) + ",\n"@));
}

/// Append the derive attribute of a record type.
fn render_derives(out: &mut String, flags: &TableFlags)
    ensures
        final(out)@ == old(out)@ + derive_text(*flags),
{
    let ghost before = out@;
    let ghost a = "#[derive("@ + text_if(flags.serialize, "otspec_macros::Serialize,"@) + " "@;
    let ghost b = a + text_if(flags.deserialize, "otspec_macros::Deserialize,"@) + " "@;
    let ghost c = b + text_if(flags.debug, "Debug,"@) + " "@;
    out.append("#[derive(");
    append_if(out, flags.serialize, "otspec_macros::Serialize,");
    out.append(" ");
    assert(out@ =~= before + a);
    append_if(out, flags.deserialize, "otspec_macros::Deserialize,");
    out.append(" ");
    assert(out@ =~= before + b);
    append_if(out, flags.debug, "Debug,");
    out.append(" ");
    assert(out@ =~= before + c);
    append_if(out, flags.default, "Default,");
    out.append(" PartialEq, Clone)]\n");
    assert(out@ =~= before + (c + text_if(flags.default, "Default,"@)
        + " PartialEq, Clone)]\n"@));
}

/// Append the text of a record type up to its first field.
fn render_head(out: &mut String, record: &RecordSchema)
    ensures
        final(out)@ == old(out)@ + head_text(record@),
{
    let ghost before = out@;
    let ghost a = "/// Low-level structure used for serializing/deserializing table\n"@
        + "#[allow(missing_docs, non_snake_case, non_camel_case_types)]\n"@ + derive_text(
        record.flags,
    );
    out.append("/// Low-level structure used for serializing/deserializing table\n");
    out.append("#[allow(missing_docs, non_snake_case, non_camel_case_types)]\n");
    render_derives(out, &record.flags);
    assert(out@ =~= before + a);
    append_if(out, record.flags.embedded, "#[otspec(embedded)]");
    out.append("\npub struct ");
    out.append(record.name.as_str());
    out.append(" {");
    assert(out@ =~= before + (a + text_if(record.flags.embedded, "#[otspec(embedded)]"@)
        + "\npub struct "@ + record.name@ + " {"@));
}

/// Append the text of one record type.
fn render_record(out: &mut String, record: &RecordSchema)
    ensures
        final(out)@ == old(out)@ + record_text(record@),
{
    let ghost before = out@;
    let ghost head = head_text(record@);
    let ghost fields = field_models(record.fields@);
    render_head(out, record);
    let mut i: usize = 0;
    assert(out@ =~= before + (head + fields_text(fields, 0)));
    while i < record.fields.len()
        invariant
            i <= record.fields@.len(),
            fields == field_models(record.fields@),
            out@ == before + (head + fields_text(fields, i as int)),
        decreases record.fields@.len() - i,
    {
        render_field(out, &record.fields[i]);
        assert(out@ =~= before + (head + (fields_text(fields, i as int) + field_text(
            fields[i as int],
        ))));
        i = i + 1;
    }
    out.append("}");
    assert(out@ =~= before + (head + fields_text(fields, fields.len() as int) + "}"@));
}

/// The text of the record types that a schema stands for, one after the
/// other: for each record its derives and attributes, and a public field for
/// every declared field.
pub fn render_tables(records: &Vec<RecordSchema>) -> (text: String)
    ensures
        text@ == tables_text(record_models(records@), records@.len() as int),
{
    let mut out = String::new();
    let ghost all = record_models(records@);
    let mut i: usize = 0;
    assert(out@ =~= tables_text(all, 0));
    while i < records.len()
        invariant
            i <= records@.len(),
            all == record_models(records@),
            out@ == tables_text(all, i as int),
        decreases records@.len() - i,
    {
        render_record(&mut out, &records[i]);
        i = i + 1;
    }
    out
}

} // verus!
