//! Data model of the upstream document service: pages, parents, data sources,
//! blocks and their typed payloads.
//!
//! Blocks form a flat, pre-order sequence; a synthetic `children` marker block
//! separates a parent from its expanded child subtree.

use vstd::prelude::*;

verus! {

/// One data source (view/partition) of an upstream database.
#[derive(Clone)]
pub struct DataSourceInfo {
    pub id: String,
    pub name: Option<String>,
}

/// The parent reference of a page.
#[derive(Clone)]
pub struct PageParent {
    pub parent_type: String,
    pub database_id: Option<String>,
    pub data_source_id: Option<String>,
}

/// A decoded property value: a single text or a list of texts.
#[derive(Clone)]
pub enum PropertyValue {
    Text(String),
    List(Vec<String>),
}

/// Page metadata as fetched from the upstream.
///
/// `properties` is an association list ordered by key (lexicographically by
/// character code, unique keys), standing in for an ordered map.
#[derive(Clone)]
pub struct PageMetadata {
    pub id: String,
    pub url: String,
    pub created_time: String,
    pub last_edited_time: String,
    pub title: Option<String>,
    pub parent: PageParent,
    pub properties: Vec<(String, PropertyValue)>,
}

#[derive(Clone)]
pub struct RichText {
    pub plain_text: String,
    pub annotations: Option<Annotations>,
    pub href: Option<String>,
}

#[derive(Clone, Copy)]
pub struct Annotations {
    pub bold: bool,
    pub italic: bool,
    pub strikethrough: bool,
    pub underline: bool,
    pub code: bool,
}

#[derive(Clone)]
pub struct RichTextContainer {
    pub rich_text: Vec<RichText>,
}

#[derive(Clone)]
pub struct ToDoContainer {
    pub rich_text: Vec<RichText>,
    pub checked: bool,
}

#[derive(Clone)]
pub struct CodeContainer {
    pub rich_text: Vec<RichText>,
    pub language: Option<String>,
}

#[derive(Clone)]
pub struct CalloutContainer {
    pub rich_text: Vec<RichText>,
}

#[derive(Clone)]
pub struct EquationContainer {
    pub expression: String,
}

#[derive(Clone)]
pub struct EmptyContainer {}

#[derive(Clone)]
pub struct BookmarkContainer {
    pub url: String,
}

#[derive(Clone)]
pub struct TitleContainer {
    pub title: String,
}

#[derive(Clone)]
pub struct TableContainer {
    pub table_width: usize,
    pub has_column_header: bool,
    pub has_row_header: bool,
}

#[derive(Clone)]
pub struct TableRowContainer {
    pub cells: Vec<Vec<RichText>>,
}

#[derive(Clone)]
pub struct FileObject {
    pub url: String,
}

#[derive(Clone)]
pub struct ExternalObject {
    pub url: String,
}

#[derive(Clone)]
pub struct ImageContainer {
    pub kind: Option<String>,
    pub file: Option<FileObject>,
    pub external: Option<ExternalObject>,
}

#[derive(Clone)]
pub struct FileContainer {
    pub kind: Option<String>,
    pub file: Option<FileObject>,
    pub external: Option<ExternalObject>,
    pub name: Option<String>,
}

#[derive(Clone)]
pub struct EmbedContainer {
    pub url: String,
}

#[derive(Clone)]
pub struct LinkToPageContainer {
    pub link_type: String,
    pub page_id: Option<String>,
    pub database_id: Option<String>,
}

/// A block: a node of the page tree, with one optional payload per known kind.
#[derive(Clone)]
pub struct Block {
    pub id: String,
    pub block_type: String,
    pub has_children: bool,
    pub paragraph: Option<RichTextContainer>,
    pub heading_1: Option<RichTextContainer>,
    pub heading_2: Option<RichTextContainer>,
    pub heading_3: Option<RichTextContainer>,
    pub bulleted_list_item: Option<RichTextContainer>,
    pub numbered_list_item: Option<RichTextContainer>,
    pub to_do: Option<ToDoContainer>,
    pub quote: Option<RichTextContainer>,
    pub code: Option<CodeContainer>,
    pub callout: Option<CalloutContainer>,
    pub divider: Option<EmptyContainer>,
    pub image: Option<ImageContainer>,
    pub bookmark: Option<BookmarkContainer>,
    pub toggle: Option<RichTextContainer>,
    pub equation: Option<EquationContainer>,
    pub child_page: Option<TitleContainer>,
    pub child_database: Option<TitleContainer>,
    pub table: Option<TableContainer>,
    pub table_row: Option<TableRowContainer>,
    pub file: Option<FileContainer>,
    pub pdf: Option<FileContainer>,
    pub video: Option<FileContainer>,
    pub audio: Option<FileContainer>,
    pub embed: Option<EmbedContainer>,
    pub link_to_page: Option<LinkToPageContainer>,
}

/// Whether a block is the synthetic `children` marker.
pub open spec fn is_children_marker(b: Block) -> bool {
    b.block_type@ == "children"@
}

impl Block {
    /// Whether this block carries no payload at all.
    pub open spec fn payload_free(self) -> bool {
        &&& self.paragraph is None
        &&& self.heading_1 is None
        &&& self.heading_2 is None
        &&& self.heading_3 is None
        &&& self.bulleted_list_item is None
        &&& self.numbered_list_item is None
        &&& self.to_do is None
        &&& self.quote is None
        &&& self.code is None
        &&& self.callout is None
        &&& self.divider is None
        &&& self.image is None
        &&& self.bookmark is None
        &&& self.toggle is None
        &&& self.equation is None
        &&& self.child_page is None
        &&& self.child_database is None
        &&& self.table is None
        &&& self.table_row is None
        &&& self.file is None
        &&& self.pdf is None
        &&& self.video is None
        &&& self.audio is None
        &&& self.embed is None
        &&& self.link_to_page is None
    }

    /// The synthetic marker that separates a parent block from its expanded
    /// child subtree.
    pub fn children_marker(id: &str) -> (r: Self)
        ensures
            r.id@ == id@ + "::children"@,
            r.block_type@ == "children"@,
            is_children_marker(r),
            !r.has_children,
            r.payload_free(),
    {
        let mut marker_id = String::new();
        marker_id.append(id);
        marker_id.append("::children");
        let mut kind = String::new();
        kind.append("children");
        proof {
            assert(marker_id@ =~= id@ + "::children"@);
            assert(kind@ =~= "children"@);
        }
        Block {
            id: marker_id,
            block_type: kind,
            has_children: false,
            paragraph: None,
            heading_1: None,
            heading_2: None,
            heading_3: None,
            bulleted_list_item: None,
            numbered_list_item: None,
            to_do: None,
            quote: None,
            code: None,
            callout: None,
            divider: None,
            image: None,
            bookmark: None,
            toggle: None,
            equation: None,
            child_page: None,
            child_database: None,
            table: None,
            table_row: None,
            file: None,
            pdf: None,
            video: None,
            audio: None,
            embed: None,
            link_to_page: None,
        }
    }
}

} // verus!
