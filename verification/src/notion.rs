//! Data model of the external content source: pages, blocks and rich text
//! spans, and the parameters of database queries against it.

use vstd::prelude::*;
use vstd::string::StringExecFns;

verus! {

/// A property of an external database.
#[derive(Debug)]
pub struct Property {
    pub id: String,
    pub ty: String,
    pub name: String,
}

/// A selected option of a select property.
#[derive(Debug)]
pub struct SelectPropertyValue {
    pub id: String,
    pub name: String,
    pub color: String,
}

/// The value of a date property.
#[derive(Debug)]
pub struct DatePropertyValue {
    pub start: String,
    pub end: Option<String>,
    pub time_zone: Option<String>,
}

/// A rich text span of the external content source.
#[derive(Debug)]
pub struct RichText {
    pub plain_text: String,
    pub href: Option<String>,
    pub annotations: RichTextAnnotations,
    pub variants: RichTextVariants,
}

/// The kind-specific part of a rich text span.
#[derive(Debug)]
pub enum RichTextVariants {
    Text(TextRichText),
    Equation(EquationRichText),
}

/// Style annotations of a rich text span.
#[derive(Debug)]
pub struct RichTextAnnotations {
    pub bold: bool,
    pub italic: bool,
    pub strikethrough: bool,
    pub underline: bool,
    pub code: bool,
    pub color: String,
}

/// A plain text span, possibly carrying a link.
#[derive(Debug)]
pub struct TextRichText {
    pub content: String,
    pub link: Option<Link>,
}

/// An inline equation span.
#[derive(Debug)]
pub struct EquationRichText {
    pub expression: String,
}

/// A link carried by a text span.
#[derive(Debug)]
pub struct Link {
    pub url: String,
}

/// A content block of the external content source.
#[derive(Debug)]
pub struct Block {
    pub id: String,
    pub created_time: String,
    pub last_edited_time: String,
    pub archived: bool,
    pub has_children: bool,
    pub variant: BlockVariants,
}

/// The kind-specific part of a content block.
#[derive(Debug)]
pub enum BlockVariants {
    Paragraph(ParagraphBlock),
    Heading1(HeadingBlock),
    Heading2(HeadingBlock),
    Heading3(HeadingBlock),
    Callout(CalloutBlock),
    Quote(QuoteBlock),
    BulletedListItem(ListItemBlock),
    NumberedListItem(ListItemBlock),
    Code(CodeBlock),
    Image(File),
    Equation(EquationBlock),
    Divider,
    Table(TableBlock),
    TableRow(TableRowBlock),
}

/// A paragraph block.
#[derive(Debug)]
pub struct ParagraphBlock {
    pub rich_text: Vec<RichText>,
    pub color: String,
}

/// A heading block; the heading level is carried by the block variant.
#[derive(Debug)]
pub struct HeadingBlock {
    pub rich_text: Vec<RichText>,
    pub color: String,
}

/// A callout block with an icon.
#[derive(Debug)]
pub struct CalloutBlock {
    pub rich_text: Vec<RichText>,
    pub icon: FileOrEmoji,
    pub color: String,
}

/// A quote block.
#[derive(Debug)]
pub struct QuoteBlock {
    pub rich_text: Vec<RichText>,
    pub color: String,
}

/// A bulleted or numbered list item block.
#[derive(Debug)]
pub struct ListItemBlock {
    pub rich_text: Vec<RichText>,
    pub color: String,
}

/// A code block with an optional caption.
#[derive(Debug)]
pub struct CodeBlock {
    pub rich_text: Vec<RichText>,
    pub caption: Vec<RichText>,
    pub language: String,
}

/// An equation block.
#[derive(Debug)]
pub struct EquationBlock {
    pub expression: String,
}

/// A table block.
#[derive(Debug)]
pub struct TableBlock {
    pub table_width: u32,
    pub has_column_header: bool,
    pub has_row_header: bool,
}

/// A table row block: one sequence of rich text spans per cell.
#[derive(Debug)]
pub struct TableRowBlock {
    pub cells: Vec<Vec<RichText>>,
}

/// A file, hosted by the content source or external.
#[derive(Debug)]
pub enum File {
    NotionHostedFile(NotionHostedFile),
    ExternalFile(ExternalFile),
}

/// A file or an emoji, as used for icons.
#[derive(Debug)]
pub enum FileOrEmoji {
    NotionHostedFile(NotionHostedFile),
    ExternalFile(ExternalFile),
    Emoji(String),
}

/// A file hosted by the content source, with an expiring URL.
#[derive(Debug)]
pub struct NotionHostedFile {
    pub url: String,
    pub expiry_time: String,
}

/// An external file.
#[derive(Debug)]
pub struct ExternalFile {
    pub url: String,
}

/// An error reported by the external content source.
#[derive(Debug)]
pub struct NotionError {
    /// Error code.
    pub code: String,
    /// Error message.
    pub message: String,
}

/// Parameters for querying entries of an external database.
#[derive(Debug)]
pub struct QueryDatabaseParams {
    /// An optional query filter.
    pub filter: Option<QueryDatabaseFilter>,
    /// How the entries should be sorted before pagination.
    pub sorts: Vec<QueryDatabaseSort>,
}

/// Query filter on database entries.
#[derive(Debug)]
pub enum QueryDatabaseFilter {
    /// Filter on a specific database property.
    Property(QueryDatabasePropertyFilter),
    /// Compound filter: any of the inner filters matches.
    Or(Vec<QueryDatabaseFilter>),
    /// Compound filter: all of the inner filters match.
    And(Vec<QueryDatabaseFilter>),
}

/// How database entries should be sorted.
#[derive(Debug)]
pub struct QueryDatabaseSort {
    /// The target property on which the database entries should be sorted.
    pub property: String,
    /// The sort direction keyword.
    pub direction: &'static str,
}

impl QueryDatabaseSort {
    /// Create a new `QueryDatabaseSort` object that specifies an ascending
    /// order on the specified database property.
    pub fn ascending_on(property: String) -> (r: Self)
        ensures
            r.property@ == property@,
            r.direction@ == "ascending"@,
    {
        Self { property, direction: "ascending" }
    }

    /// Create a new `QueryDatabaseSort` object that specifies a descending
    /// order on the specified database property.
    pub fn descending_on(property: String) -> (r: Self)
        ensures
            r.property@ == property@,
            r.direction@ == "descending"@,
    {
        Self { property, direction: "descending" }
    }
}

/// A database entry filter on the values of one property.
#[derive(Debug)]
pub struct QueryDatabasePropertyFilter {
    /// The target property.
    pub property: String,
    /// The filter condition, by property type.
    pub variant: QueryDatabasePropertyFilterVariants,
}

impl QueryDatabasePropertyFilter {
    /// Create a new `QueryDatabasePropertyFilter` that selects database
    /// entries whose specified checkbox property is checked.
    pub fn checkbox_checked(property_name: String) -> (r: Self)
        ensures
            r.property@ == property_name@,
            r.variant matches QueryDatabasePropertyFilterVariants::Checkbox(c) && c matches
                QueryDatabaseCheckboxFilter::Equals(b) && b,
    {
        Self {
            property: property_name,
            variant: QueryDatabasePropertyFilterVariants::Checkbox(
                QueryDatabaseCheckboxFilter::Equals(true),
            ),
        }
    }
}

/// Filter conditions for the different property types.
#[derive(Debug)]
pub enum QueryDatabasePropertyFilterVariants {
    /// Filter on a checkbox property.
    Checkbox(QueryDatabaseCheckboxFilter),
}

/// A filter condition on a checkbox property.
#[derive(Debug)]
pub enum QueryDatabaseCheckboxFilter {
    Equals(bool),
    DoesNotEqual(bool),
}

/// A post listed from the external content source, paired with the source
/// page it came from.
#[derive(Debug)]
pub struct NotionPost {
    /// The source page identifier corresponding to the post.
    pub notion_page_id: String,
    /// The post data model.
    pub post: crate::models::Post,
}

/// A schema validation error: a required property is missing from the
/// external database, or has an unexpected type.
#[derive(Debug)]
pub enum InvalidSchemaError {
    /// A required property is missing from the database.
    MissingProperty(InvalidSchemaMissingPropertyError),
    /// A property has an unexpected type.
    InvalidPropertyType(InvalidSchemaPropertyTypeError),
}

/// A required property is missing from the external database.
#[derive(Debug)]
pub struct InvalidSchemaMissingPropertyError {
    /// Name of the missing property.
    pub prop: String,
}

/// A property of the external database has an unexpected type.
#[derive(Debug)]
pub struct InvalidSchemaPropertyTypeError {
    /// Name of the property.
    pub prop: String,
    /// The expected data type of the target property.
    pub expected_type: String,
    /// The actual data type of the target property.
    pub actual_type: String,
}

impl InvalidSchemaError {
    /// Create an `InvalidSchemaError` that represents the specified property
    /// being missing from the external database.
    pub fn missing_property(prop: String) -> (r: Self)
        ensures
            r matches InvalidSchemaError::MissingProperty(e) && e.prop@ == prop@,
    {
        Self::MissingProperty(InvalidSchemaMissingPropertyError { prop })
    }

    /// Create an `InvalidSchemaError` that represents the specified property
    /// having an unexpected type.
    pub fn invalid_property_type(prop: String, expected_type: String, actual_type: String) -> (r:
        Self)
        ensures
            r matches InvalidSchemaError::InvalidPropertyType(e) && e.prop@ == prop@
                && e.expected_type@ == expected_type@ && e.actual_type@ == actual_type@,
    {
        Self::InvalidPropertyType(
            InvalidSchemaPropertyTypeError { prop, expected_type, actual_type },
        )
    }
}

/// Get a `QueryDatabaseParams` object that can be used for querying post
/// pages from the posts database: published posts only, newest first.
pub fn get_query_posts_db_params() -> (r: QueryDatabaseParams)
    ensures
        r.filter matches Option::Some(f) && (f matches QueryDatabaseFilter::Property(p)
            && p.property@ == "published"@ && (p.variant
            matches QueryDatabasePropertyFilterVariants::Checkbox(c) && c
            matches QueryDatabaseCheckboxFilter::Equals(b) && b)),
        r.sorts@.len() == 1,
        r.sorts@[0].property@ == "create_date"@,
        r.sorts@[0].direction@ == "descending"@,
{
    QueryDatabaseParams {
        filter: Some(
            QueryDatabaseFilter::Property(
                QueryDatabasePropertyFilter::checkbox_checked(String::from_str("published")),
            ),
        ),
        sorts: {
            let mut sorts: Vec<QueryDatabaseSort> = Vec::new();
            sorts.push(QueryDatabaseSort::descending_on(String::from_str("create_date")));
            sorts
        },
    }
}

} // verus!
