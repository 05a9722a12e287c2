use notion_mirror::notion::{
    Annotations, Block, BookmarkContainer, EquationContainer, PageMetadata, PageParent,
    PropertyValue, RichText, RichTextContainer, TableContainer, TableRowContainer, ToDoContainer,
};
use notion_mirror::render::{
    build_blob_path, extract_extension_from_name, extract_extension_from_url, format_blob_link,
    render_blocks, render_page, render_rich_text_item, render_rich_text_vec,
};

fn blk(id: &str, kind: &str) -> Block {
    Block {
        id: id.to_string(),
        block_type: kind.to_string(),
        has_children: false,
        paragraph: None,
        heading_1: None,
        heading_2: None,
        heading_3: None,
        bulleted_list_item: None,
        numbered_list_item: None,
        to_do: None,
        quote: None,
        code: None,
        callout: None,
        divider: None,
        image: None,
        bookmark: None,
        toggle: None,
        equation: None,
        child_page: None,
        child_database: None,
        table: None,
        table_row: None,
        file: None,
        pdf: None,
        video: None,
        audio: None,
        embed: None,
        link_to_page: None,
    }
}

fn rt(text: &str) -> RichText {
    RichText { plain_text: text.to_string(), annotations: None, href: None }
}

fn rtc(text: &str) -> RichTextContainer {
    RichTextContainer { rich_text: vec![rt(text)] }
}

fn para(id: &str, text: &str) -> Block {
    let mut b = blk(id, "paragraph");
    b.paragraph = Some(rtc(text));
    b
}

fn num(id: &str, text: &str) -> Block {
    let mut b = blk(id, "numbered_list_item");
    b.numbered_list_item = Some(rtc(text));
    b
}

fn meta(id: &str) -> PageMetadata {
    PageMetadata {
        id: id.to_string(),
        url: String::new(),
        created_time: String::new(),
        last_edited_time: String::new(),
        title: None,
        parent: PageParent {
            parent_type: "workspace".to_string(),
            database_id: None,
            data_source_id: None,
        },
        properties: vec![],
    }
}

#[test]
fn paragraph_page() {
    let metadata = meta("p1");
    let blocks = vec![para("b1", "Hello")];
    let rendered = render_page(&metadata, &blocks, &vec![], None);
    assert_eq!(rendered.markdown, "---\n_notion:\n  page_id: p1\n---\n\nHello\n\n");
    assert!(rendered.blobs.is_empty());
}

#[test]
fn front_matter_parses_as_yaml_with_page_id() {
    let mut metadata = meta("p-yaml");
    metadata.parent.database_id = Some("db-9".to_string());
    metadata.properties = vec![
        ("Status".to_string(), PropertyValue::Text("Live".to_string())),
        ("Tags".to_string(), PropertyValue::List(vec!["a".to_string(), "b".to_string()])),
    ];
    let rendered = render_page(&metadata, &blocks_none(), &vec![], None);
    let rest = rendered.markdown.strip_prefix("---\n").unwrap();
    let end = rest.find("---\n").unwrap();
    let yaml = &rest[..end];
    let value: serde_yaml::Value = serde_yaml::from_str(yaml).unwrap();
    assert_eq!(value["_notion"]["page_id"].as_str(), Some("p-yaml"));
    assert_eq!(value["_notion"]["database_id"].as_str(), Some("db-9"));
    assert_eq!(value["Status"].as_str(), Some("Live"));
    assert_eq!(value["Tags"][1].as_str(), Some("b"));
    // emitted key order: _notion first, then the properties in key order
    let notion_at = yaml.find("_notion:").unwrap();
    let status_at = yaml.find("Status:").unwrap();
    let tags_at = yaml.find("Tags:").unwrap();
    assert!(notion_at < status_at && status_at < tags_at);
}

fn blocks_none() -> Vec<Block> {
    vec![]
}

#[test]
fn front_matter_key_map_and_includes() {
    let mut metadata = meta("p2");
    metadata.properties = vec![
        ("Hidden".to_string(), PropertyValue::Text("x".to_string())),
        ("Kept".to_string(), PropertyValue::Text("y".to_string())),
        ("Renamed".to_string(), PropertyValue::Text("z".to_string())),
    ];
    let key_map = vec![
        ("Hidden".to_string(), "".to_string()),
        ("Renamed".to_string(), "alias".to_string()),
    ];
    let includes = vec!["Kept".to_string(), "Renamed".to_string(), "Hidden".to_string()];
    let rendered = render_page(&metadata, &blocks_none(), &key_map, Some(&includes));
    assert!(!rendered.markdown.contains("Hidden"));
    assert!(rendered.markdown.contains("Kept: y"));
    assert!(rendered.markdown.contains("alias: z"));
    let filtered = render_page(&metadata, &blocks_none(), &vec![], Some(&vec![]));
    assert_eq!(filtered.markdown, "---\n_notion:\n  page_id: p2\n---\n\n");
}

#[test]
fn numbered_list_reset() {
    let blocks = vec![num("1", "a"), num("2", "b"), para("3", "x"), num("4", "c")];
    let (markdown, _) = render_blocks(&blocks);
    assert_eq!(markdown, "1. a\n2. b\nx\n\n1. c\n");
}

#[test]
fn numbered_list_children_marker_resets() {
    let mut blocks = vec![num("1", "a"), num("2", "b")];
    blocks.push(Block::children_marker("2"));
    blocks.push(num("3", "c"));
    let (markdown, _) = render_blocks(&blocks);
    assert_eq!(markdown, "1. a\n2. b\n\n1. c\n");
}

#[test]
fn annotated_rich_text() {
    let item = RichText {
        plain_text: "A".to_string(),
        annotations: Some(Annotations {
            bold: true,
            italic: true,
            strikethrough: false,
            underline: false,
            code: false,
        }),
        href: Some("u".to_string()),
    };
    assert_eq!(render_rich_text_item(&item), "[***A***](u)");
}

#[test]
fn code_annotation_wins_over_styles() {
    let item = RichText {
        plain_text: "x".to_string(),
        annotations: Some(Annotations {
            bold: true,
            italic: true,
            strikethrough: true,
            underline: true,
            code: true,
        }),
        href: None,
    };
    assert_eq!(render_rich_text_item(&item), "`x`");
}

fn table_block(id: &str, width: usize, col: bool, row: bool) -> Block {
    let mut b = blk(id, "table");
    b.table = Some(TableContainer {
        table_width: width,
        has_column_header: col,
        has_row_header: row,
    });
    b
}

fn row_block(id: &str, cells: &[&str]) -> Block {
    let mut b = blk(id, "table_row");
    b.table_row = Some(TableRowContainer {
        cells: cells.iter().map(|c| vec![rt(c)]).collect(),
    });
    b
}

#[test]
fn table_with_column_header() {
    let blocks = vec![
        table_block("t", 2, true, false),
        row_block("r1", &["H1", "H2"]),
        row_block("r2", &["a", "b"]),
    ];
    let (markdown, _) = render_blocks(&blocks);
    assert_eq!(markdown, "| H1 | H2 |\n| --- | --- |\n| a | b |\n\n");
}

#[test]
fn table_without_column_header_emits_blank_header() {
    let blocks = vec![table_block("t", 2, false, false), row_block("r1", &["a", "b"])];
    let (markdown, _) = render_blocks(&blocks);
    assert_eq!(markdown, "|   |   |\n| --- | --- |\n| a | b |\n\n");
}

#[test]
fn table_row_header_and_padding() {
    let blocks = vec![
        table_block("t", 3, true, true),
        row_block("r1", &["H1", "H2", "H3"]),
        row_block("r2", &["k", "v"]),
    ];
    let (markdown, _) = render_blocks(&blocks);
    assert_eq!(markdown, "| H1 | H2 | H3 |\n| --- | --- | --- |\n| **k** | v |  |\n\n");
}

#[test]
fn empty_table_emits_nothing() {
    let blocks = vec![table_block("t", 2, true, false), para("p", "after")];
    let (markdown, _) = render_blocks(&blocks);
    assert_eq!(markdown, "after\n\n");
}

#[test]
fn misc_blocks_render() {
    let mut divider = blk("d", "divider");
    divider.divider = Some(notion_mirror::notion::EmptyContainer {});
    let mut todo = blk("td", "to_do");
    todo.to_do = Some(ToDoContainer { rich_text: vec![rt("task")], checked: true });
    let mut bookmark = blk("bm", "bookmark");
    bookmark.bookmark = Some(BookmarkContainer { url: "https://e".to_string() });
    let mut eq = blk("eq", "equation");
    eq.equation = Some(EquationContainer { expression: "x+y".to_string() });
    let blocks = vec![divider, todo, bookmark, eq];
    let (markdown, _) = render_blocks(&blocks);
    assert_eq!(markdown, "---\n\n- [x] task\n[https://e](https://e)\n\n$$\nx+y\n$$\n\n");
}

#[test]
fn image_block_records_blob() {
    let mut image = blk("img1", "image");
    image.image = Some(notion_mirror::notion::ImageContainer {
        kind: Some("file".to_string()),
        file: Some(notion_mirror::notion::FileObject {
            url: "https://host/pic.PNG?sig=1".to_string(),
        }),
        external: None,
    });
    let (markdown, blobs) = render_blocks(&vec![image]);
    assert_eq!(markdown, "![](../blobs/img1.png)\n\n");
    assert_eq!(blobs.len(), 1);
    assert_eq!(blobs[0].path, "blobs/img1.png");
    assert_eq!(blobs[0].url, "https://host/pic.PNG?sig=1");
}

#[test]
fn file_block_uses_name_and_label() {
    let mut file = blk("f1", "file");
    file.file = Some(notion_mirror::notion::FileContainer {
        kind: Some("file".to_string()),
        file: Some(notion_mirror::notion::FileObject { url: "https://host/x".to_string() }),
        external: None,
        name: Some("Report.PDF".to_string()),
    });
    let (markdown, blobs) = render_blocks(&vec![file]);
    assert_eq!(markdown, "[Report.PDF](../blobs/f1.pdf)\n\n");
    assert_eq!(blobs[0].path, "blobs/f1.pdf");
}

#[test]
fn blob_path_extension_rules() {
    assert_eq!(extract_extension_from_name("photo.JPG"), Some("jpg".to_string()));
    assert_eq!(extract_extension_from_name("  spaced.TXT  "), Some("txt".to_string()));
    assert_eq!(extract_extension_from_name("noext"), None);
    assert_eq!(extract_extension_from_name("trailing."), None);
    assert_eq!(
        extract_extension_from_url("https://h/p/file.tar.GZ?x=1#frag"),
        Some("gz".to_string())
    );
    assert_eq!(extract_extension_from_url("https://h/p/file"), None);
    assert_eq!(build_blob_path("b1", None, Some("https://h/a.png")), "blobs/b1.png");
    assert_eq!(build_blob_path("b1", Some("n.txt"), Some("https://h/a.png")), "blobs/b1.txt");
    assert_eq!(build_blob_path("b1", None, None), "blobs/b1.bin");
    assert_eq!(format_blob_link("blobs/b1.bin"), "../blobs/b1.bin");
}

#[test]
fn rich_text_run_concatenates() {
    let items = vec![rt("a"), rt("b"), rt("c")];
    assert_eq!(render_rich_text_vec(&items), "abc");
}

#[test]
fn render_is_deterministic() {
    let metadata = meta("p1");
    let blocks = vec![para("b1", "Hello"), num("n1", "one")];
    let first = render_page(&metadata, &blocks, &vec![], None);
    let second = render_page(&metadata, &blocks, &vec![], None);
    assert_eq!(first.markdown, second.markdown);
    assert_eq!(first.blobs.len(), second.blobs.len());
}
