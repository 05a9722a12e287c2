//! The renderer: page metadata plus a flattened block tree become a Markdown
//! document with YAML front-matter and an ordered list of blob references.
//!
//! Every emitting function is pinned to a spec-level sequence function, so the
//! whole document is a mathematical function of the inputs.

use serde_yaml::Mapping;
use serde_yaml::Value as Yaml;
use vstd::prelude::*;

use crate::notion::{
    Annotations, Block, FileContainer, PageMetadata, PropertyValue, RichText, RichTextContainer,
};
use crate::strings::{
    lower_ascii, rfind_char, find_char, spec_after_last, spec_before, spec_dec, spec_lower,
    spec_rfind, spec_trim, trim_str, usize_to_string,
};

verus! {

/// A rendered page: the Markdown text and the blobs it references, in
/// insertion order.
pub struct Rendered {
    pub markdown: String,
    pub blobs: Vec<BlobRef>,
}

/// One blob referenced by a page: where to store it and where to fetch it.
#[derive(Clone)]
pub struct BlobRef {
    pub path: String,
    pub url: String,
}

/// The (path, url) views of a blob list.
pub open spec fn blob_views(v: Seq<BlobRef>) -> Seq<(Seq<char>, Seq<char>)> {
    v.map_values(|b: BlobRef| (b.path@, b.url@))
}

// ---------------------------------------------------------------------------
// Rich text
// ---------------------------------------------------------------------------

/// Markdown for one rich-text segment: code wins over the other styles;
/// otherwise bold, italic, strikethrough, underline wrap in that order;
/// a link wraps the final text.
pub open spec fn md_rich_text_item(it: RichText) -> Seq<char> {
    let t = it.plain_text@;
    let styled = match it.annotations {
        None => t,
        Some(a) => {
            if a.code {
                "`"@ + t + "`"@
            } else {
                let t1 = if a.bold {
                    "**"@ + t + "**"@
                } else {
                    t
                };
                let t2 = if a.italic {
                    "*"@ + t1 + "*"@
                } else {
                    t1
                };
                let t3 = if a.strikethrough {
                    "~~"@ + t2 + "~~"@
                } else {
                    t2
                };
                if a.underline {
                    "<u>"@ + t3 + "</u>"@
                } else {
                    t3
                }
            }
        },
    };
    match it.href {
        None => styled,
        Some(h) => "["@ + styled + "]("@ + h@ + ")"@,
    }
}

/// Markdown for a rich-text run: the segments concatenated.
pub open spec fn md_rich_text_seq(s: Seq<RichText>) -> Seq<char>
    decreases s.len(),
{
    if s.len() == 0 {
        Seq::empty()
    } else {
        md_rich_text_seq(s.drop_last()) + md_rich_text_item(s.last())
    }
}

fn wrap_str(pre: &str, mid: String, post: &str) -> (r: String)
    ensures
        r@ == pre@ + mid@ + post@,
{
    let mut t = String::new();
    t.append(pre);
    t.append(mid.as_str());
    t.append(post);
    proof {
        assert(t@ =~= pre@ + mid@ + post@);
    }
    t
}

/// Renders one rich-text segment.
pub fn render_rich_text_item(item: &RichText) -> (r: String)
    ensures
        r@ == md_rich_text_item(*item),
{
    let mut text = item.plain_text.clone();
    match &item.annotations {
        None => {},
        Some(a) => {
            if a.code {
                text = wrap_str("`", text, "`");
            } else {
                if a.bold {
                    text = wrap_str("**", text, "**");
                }
                if a.italic {
                    text = wrap_str("*", text, "*");
                }
                if a.strikethrough {
                    text = wrap_str("~~", text, "~~");
                }
                if a.underline {
                    text = wrap_str("<u>", text, "</u>");
                }
            }
        },
    }
    match &item.href {
        None => {},
        Some(h) => {
            let mut t = String::new();
            t.append("[");
            t.append(text.as_str());
            t.append("](");
            t.append(h.as_str());
            t.append(")");
            proof {
                assert(t@ =~= "["@ + text@ + "]("@ + h@ + ")"@);
            }
            text = t;
        },
    }
    text
}

/// Renders a rich-text run.
pub fn render_rich_text_vec(rich_text: &Vec<RichText>) -> (r: String)
    ensures
        r@ == md_rich_text_seq(rich_text@),
{
    let mut out = String::new();
    let mut i: usize = 0;
    proof {
        assert(rich_text@.take(0) =~= Seq::<RichText>::empty());
    }
    while i < rich_text.len()
        invariant
            0 <= i <= rich_text@.len(),
            out@ == md_rich_text_seq(rich_text@.take(i as int)),
        decreases rich_text@.len() - i,
    {
        let item = render_rich_text_item(&rich_text[i]);
        out.append(item.as_str());
        proof {
            assert(rich_text@.take(i as int + 1).drop_last() =~= rich_text@.take(i as int));
            assert(rich_text@.take(i as int + 1).last() == rich_text@[i as int]);
        }
        i = i + 1;
    }
    proof {
        assert(rich_text@.take(rich_text@.len() as int) =~= rich_text@);
    }
    out
}

/// Renders the rich text held by a container.
pub fn render_rich_text(container: &RichTextContainer) -> (r: String)
    ensures
        r@ == md_rich_text_seq(container.rich_text@),
{
    render_rich_text_vec(&container.rich_text)
}

// ---------------------------------------------------------------------------
// Blob paths
// ---------------------------------------------------------------------------

/// The extension taken from a file name: the part after the last dot of the
/// trimmed name, lower-cased; none when there is no dot or it ends the name.
pub open spec fn md_ext_from_name(name: Seq<char>) -> Option<Seq<char>> {
    let t = spec_trim(name);
    match spec_rfind(t, '.') {
        None => None,
        Some(i) => {
            let e = t.skip(i + 1);
            if e.len() == 0 {
                None
            } else {
                Some(spec_lower(e))
            }
        },
    }
}

/// The extension taken from a URL: query and fragment stripped, then the last
/// path segment's extension.
pub open spec fn md_ext_from_url(url: Seq<char>) -> Option<Seq<char>> {
    let no_query = spec_before(url, '?');
    let no_fragment = spec_before(no_query, '#');
    md_ext_from_name(spec_after_last(no_fragment, '/'))
}

/// The extension chosen for a blob: from the name, else from the URL, else
/// `bin`.
pub open spec fn md_blob_ext(name: Option<Seq<char>>, url: Option<Seq<char>>) -> Seq<char> {
    let from_name = match name {
        None => None,
        Some(n) => md_ext_from_name(n),
    };
    let from_url = match url {
        None => None,
        Some(u) => md_ext_from_url(u),
    };
    match from_name {
        Some(e) => e,
        None => match from_url {
            Some(e) => e,
            None => "bin"@,
        },
    }
}

/// The storage path of a blob: `blobs/{blockId}.{ext}`.
pub open spec fn md_blob_path(block_id: Seq<char>, name: Option<Seq<char>>, url: Option<
    Seq<char>,
>) -> Seq<char> {
    "blobs/"@ + block_id + "."@ + md_blob_ext(name, url)
}

/// The extension of a file name, if any.
pub fn extract_extension_from_name(name: &str) -> (r: Option<String>)
    ensures
        match r {
            None => md_ext_from_name(name@) is None,
            Some(e) => md_ext_from_name(name@) == Some(e@),
        },
{
    let trimmed = trim_str(name);
    match rfind_char(trimmed, '.') {
        None => None,
        Some(i) => {
            let n = trimmed.unicode_len();
            proof {
                crate::strings::lemma_spec_rfind_props(trimmed@, '.');
            }
            let ext = trimmed.substring_char(i + 1, n);
            proof {
                assert(ext@ =~= trimmed@.skip(i as int + 1));
            }
            if ext.unicode_len() == 0 {
                None
            } else {
                Some(lower_ascii(ext))
            }
        },
    }
}

/// The extension of a URL's last path segment, if any.
pub fn extract_extension_from_url(url: &str) -> (r: Option<String>)
    ensures
        match r {
            None => md_ext_from_url(url@) is None,
            Some(e) => md_ext_from_url(url@) == Some(e@),
        },
{
    let n0 = url.unicode_len();
    proof {
        crate::strings::lemma_spec_find_props(url@, '?');
    }
    let without_query = match find_char(url, '?') {
        None => url,
        Some(i) => url.substring_char(0, i),
    };
    proof {
        assert(url@.take(n0 as int) =~= url@);
        assert(without_query@ == spec_before(url@, '?'));
    }
    let n1 = without_query.unicode_len();
    proof {
        crate::strings::lemma_spec_find_props(without_query@, '#');
    }
    let without_fragment = match find_char(without_query, '#') {
        None => without_query,
        Some(i) => without_query.substring_char(0, i),
    };
    proof {
        assert(without_query@.take(n1 as int) =~= without_query@);
        assert(without_fragment@ == spec_before(without_query@, '#'));
    }
    let n2 = without_fragment.unicode_len();
    proof {
        crate::strings::lemma_spec_rfind_props(without_fragment@, '/');
    }
    let filename = match rfind_char(without_fragment, '/') {
        None => without_fragment,
        Some(i) => without_fragment.substring_char(i + 1, n2),
    };
    proof {
        assert(without_fragment@.skip(0) =~= without_fragment@);
        assert(filename@ == spec_after_last(without_fragment@, '/'));
    }
    extract_extension_from_name(filename)
}

/// The storage path for a block's blob.
pub fn build_blob_path(block_id: &str, name: Option<&str>, url: Option<&str>) -> (r: String)
    ensures
        r@ == md_blob_path(
            block_id@,
            match name {
                None => None,
                Some(n) => Some(n@),
            },
            match url {
                None => None,
                Some(u) => Some(u@),
            },
        ),
{
    let ext: String = {
        let from_name = match name {
            None => None,
            Some(n) => extract_extension_from_name(n),
        };
        match from_name {
            Some(e) => e,
            None => {
                let from_url = match url {
                    None => None,
                    Some(u) => extract_extension_from_url(u),
                };
                match from_url {
                    Some(e) => e,
                    None => {
                        let mut b = String::new();
                        b.append("bin");
                        proof {
                            assert(b@ =~= "bin"@);
                        }
                        b
                    },
                }
            },
        }
    };
    let mut out = String::new();
    out.append("blobs/");
    out.append(block_id);
    out.append(".");
    out.append(ext.as_str());
    proof {
        assert(out@ =~= "blobs/"@ + block_id@ + "."@ + ext@);
    }
    out
}

/// The Markdown link target for a blob path, relative to `pages/`.
pub open spec fn md_blob_link(path: Seq<char>) -> Seq<char> {
    "../"@ + path
}

/// The Markdown link target for a blob path.
pub fn format_blob_link(path: &str) -> (r: String)
    ensures
        r@ == md_blob_link(path@),
{
    let mut out = String::new();
    out.append("../");
    out.append(path);
    proof {
        assert(out@ =~= "../"@ + path@);
    }
    out
}

// ---------------------------------------------------------------------------
// Tables
// ---------------------------------------------------------------------------

/// The buffer collecting an open table: declared geometry plus the rendered
/// rows seen so far.
pub struct TableState {
    pub rows: Vec<Vec<String>>,
    pub width: usize,
    pub has_column_header: bool,
    pub has_row_header: bool,
}

/// The mathematical value of a table buffer.
pub struct TableV {
    pub rows: Seq<Seq<Seq<char>>>,
    pub width: int,
    pub col_header: bool,
    pub row_header: bool,
}

/// The views of one row's cells.
pub open spec fn row_view(r: Seq<String>) -> Seq<Seq<char>> {
    r.map_values(|c: String| c@)
}

/// The views of all rows.
pub open spec fn rows_view(rs: Seq<Vec<String>>) -> Seq<Seq<Seq<char>>> {
    rs.map_values(|r: Vec<String>| row_view(r@))
}

/// The mathematical value of a table buffer.
pub open spec fn table_view(t: TableState) -> TableV {
    TableV {
        rows: rows_view(t.rows@),
        width: t.width as int,
        col_header: t.has_column_header,
        row_header: t.has_row_header,
    }
}

/// The mathematical value of an optional table buffer.
pub open spec fn opt_table_view(t: Option<TableState>) -> Option<TableV> {
    match t {
        None => None,
        Some(t) => Some(table_view(t)),
    }
}

impl TableState {
    /// An empty table buffer with the given geometry.
    pub fn new(width: usize, has_column_header: bool, has_row_header: bool) -> (r: Self)
        ensures
            table_view(r) == (TableV {
                rows: Seq::<Seq<Seq<char>>>::empty(),
                width: width as int,
                col_header: has_column_header,
                row_header: has_row_header,
            }),
    {
        let r = TableState { rows: Vec::new(), width, has_column_header, has_row_header };
        proof {
            assert(rows_view(r.rows@) =~= Seq::<Seq<Seq<char>>>::empty());
        }
        r
    }
}

/// Cells joined by a separator.
pub open spec fn md_join(cells: Seq<Seq<char>>, sep: Seq<char>) -> Seq<char>
    decreases cells.len(),
{
    if cells.len() == 0 {
        Seq::empty()
    } else if cells.len() == 1 {
        cells[0]
    } else {
        md_join(cells.drop_last(), sep) + sep + cells.last()
    }
}

/// One table line: `| a | b |` plus the newline.
pub open spec fn md_row_line(cells: Seq<Seq<char>>) -> Seq<char> {
    "| "@ + md_join(cells, " | "@) + " |\n"@
}

/// A row right-padded with empty cells to width `w`.
pub open spec fn md_pad_row(row: Seq<Seq<char>>, w: int) -> Seq<Seq<char>> {
    if row.len() >= w {
        row
    } else {
        row + Seq::new((w - row.len()) as nat, |i: int| Seq::<char>::empty())
    }
}

/// The effective table width: the declared width or the longest row, whichever
/// is larger.
pub open spec fn md_max_width(rows: Seq<Seq<Seq<char>>>, declared: int) -> int
    decreases rows.len(),
{
    if rows.len() == 0 {
        declared
    } else {
        let m = md_max_width(rows.drop_last(), declared);
        if rows.last().len() > m {
            rows.last().len() as int
        } else {
            m
        }
    }
}

/// Header cells with empties replaced by a single space.
pub open spec fn md_header_cells(cells: Seq<Seq<char>>) -> Seq<Seq<char>> {
    cells.map_values(|c: Seq<char>| if c.len() == 0 { " "@ } else { c })
}

/// A body row with its first cell wrapped in `**` when the table has a row
/// header.
pub open spec fn md_wrap_first(row: Seq<Seq<char>>) -> Seq<Seq<char>> {
    if row.len() == 0 {
        row
    } else {
        row.update(0, "**"@ + row[0] + "**"@)
    }
}

/// The body lines of a table.
pub open spec fn md_body_lines(rows: Seq<Seq<Seq<char>>>, row_header: bool) -> Seq<char>
    decreases rows.len(),
{
    if rows.len() == 0 {
        Seq::empty()
    } else {
        md_body_lines(rows.drop_last(), row_header) + md_row_line(
            if row_header {
                md_wrap_first(rows.last())
            } else {
                rows.last()
            },
        )
    }
}

/// The Markdown of a flushed table buffer: nothing when no buffer is open or
/// it holds no rows; otherwise header row, separator row, body rows, blank
/// line.
pub open spec fn md_flush_table(t: Option<TableV>) -> Seq<char> {
    match t {
        None => Seq::empty(),
        Some(t) => {
            if t.rows.len() == 0 {
                Seq::empty()
            } else {
                let w = md_max_width(t.rows, t.width);
                let padded = t.rows.map_values(|r: Seq<Seq<char>>| md_pad_row(r, w));
                let header = md_header_cells(
                    if t.col_header {
                        padded[0]
                    } else {
                        Seq::new(w as nat, |i: int| Seq::<char>::empty())
                    },
                );
                let body = if t.col_header {
                    padded.drop_first()
                } else {
                    padded
                };
                md_row_line(header) + md_row_line(Seq::new(w as nat, |i: int| "---"@))
                    + md_body_lines(body, t.row_header) + "\n"@
            }
        },
    }
}

/// Appends one table line for the given cells.
fn append_row_line(out: &mut String, cells: &Vec<String>)
    ensures
        final(out)@ == old(out)@ + md_row_line(row_view(cells@)),
{
    out.append("| ");
    let mut i: usize = 0;
    while i < cells.len()
        invariant
            0 <= i <= cells@.len(),
            out@ == old(out)@ + "| "@ + md_join(row_view(cells@).take(i as int), " | "@),
        decreases cells@.len() - i,
    {
        if i > 0 {
            out.append(" | ");
        }
        out.append(cells[i].as_str());
        proof {
            let rv = row_view(cells@);
            assert(rv.take(i as int + 1).drop_last() =~= rv.take(i as int));
            assert(rv.take(i as int + 1).last() == rv[i as int]);
            if i == 0 {
                assert(md_join(rv.take(1), " | "@) == rv[0]);
                assert(out@ =~= old(out)@ + "| "@ + md_join(rv.take(i as int + 1), " | "@));
            } else {
                assert(out@ =~= old(out)@ + "| "@ + md_join(rv.take(i as int + 1), " | "@));
            }
        }
        i = i + 1;
    }
    out.append(" |\n");
    proof {
        assert(row_view(cells@).take(cells@.len() as int) =~= row_view(cells@));
        assert(out@ =~= old(out)@ + md_row_line(row_view(cells@)));
    }
}

/// Closes a table buffer, appending its Markdown to `out`.
pub fn flush_table(out: &mut String, state: Option<TableState>)
    ensures
        final(out)@ == old(out)@ + md_flush_table(opt_table_view(state)),
{
    let state = match state {
        None => {
            proof {
                assert(out@ =~= old(out)@ + md_flush_table(None));
            }
            return;
        },
        Some(s) => s,
    };
    let ghost tv = table_view(state);
    if state.rows.len() == 0 {
        proof {
            assert(rows_view(state.rows@).len() == 0);
            assert(out@ =~= old(out)@ + md_flush_table(Some(tv)));
        }
        return;
    }
    let ghost all_rows = rows_view(state.rows@);

    // Effective width.
    let mut w: usize = state.width;
    let mut i: usize = 0;
    proof {
        assert(all_rows.take(0) =~= Seq::<Seq<Seq<char>>>::empty());
    }
    while i < state.rows.len()
        invariant
            0 <= i <= state.rows@.len(),
            all_rows == rows_view(state.rows@),
            w as int == md_max_width(all_rows.take(i as int), state.width as int),
        decreases state.rows@.len() - i,
    {
        if state.rows[i].len() > w {
            w = state.rows[i].len();
        }
        proof {
            assert(all_rows.take(i as int + 1).drop_last() =~= all_rows.take(i as int));
            assert(all_rows.take(i as int + 1).last() == row_view(state.rows@[i as int]@));
        }
        i = i + 1;
    }
    proof {
        assert(all_rows.take(state.rows@.len() as int) =~= all_rows);
        assert(w as int == md_max_width(tv.rows, tv.width));
    }

    // Padded rows.
    let ghost padded_spec = tv.rows.map_values(|r: Seq<Seq<char>>| md_pad_row(r, w as int));
    let mut padded: Vec<Vec<String>> = Vec::new();
    let mut i: usize = 0;
    proof {
        assert(rows_view(padded@) =~= padded_spec.take(0));
    }
    while i < state.rows.len()
        invariant
            0 <= i <= state.rows@.len(),
            all_rows == rows_view(state.rows@),
            padded_spec == tv.rows.map_values(|r: Seq<Seq<char>>| md_pad_row(r, w as int)),
            tv.rows == all_rows,
            padded@.len() == i,
            rows_view(padded@) == padded_spec.take(i as int),
        decreases state.rows@.len() - i,
    {
        let row = &state.rows[i];
        let mut newrow: Vec<String> = Vec::new();
        let mut j: usize = 0;
        while j < row.len()
            invariant
                0 <= j <= row@.len(),
                newrow@.len() == j,
                forall|k: int| 0 <= k < j ==> newrow@[k]@ == row@[k]@,
            decreases row@.len() - j,
        {
            newrow.push(row[j].clone());
            j = j + 1;
        }
        while newrow.len() < w
            invariant
                newrow@.len() >= row@.len(),
                newrow@.len() <= w || newrow@.len() == row@.len(),
                forall|k: int| 0 <= k < row@.len() ==> newrow@[k]@ == row@[k]@,
                forall|k: int|
                    row@.len() <= k < newrow@.len() ==> newrow@[k]@ == Seq::<char>::empty(),
            decreases w - newrow@.len(),
        {
            let empty_cell = String::new();
            newrow.push(empty_cell);
        }
        proof {
            assert(row_view(newrow@) =~= md_pad_row(row_view(row@), w as int));
            assert(padded_spec[i as int] == md_pad_row(all_rows[i as int], w as int));
            assert(all_rows[i as int] == row_view(row@));
        }
        padded.push(newrow);
        proof {
            assert(rows_view(padded@) =~= padded_spec.take(i as int + 1));
        }
        i = i + 1;
    }
    proof {
        assert(padded_spec.take(state.rows@.len() as int) =~= padded_spec);
        assert(rows_view(padded@) == padded_spec);
    }

    // Header row.
    let ghost header_spec = md_header_cells(
        if tv.col_header {
            padded_spec[0]
        } else {
            Seq::new(w as nat, |k: int| Seq::<char>::empty())
        },
    );
    let mut header: Vec<String> = Vec::new();
    if state.has_column_header {
        let first = &padded[0];
        let mut j: usize = 0;
        proof {
            assert(padded_spec[0] == row_view(padded@[0]@));
            assert(row_view(header@) =~= header_spec.take(0));
        }
        while j < first.len()
            invariant
                0 <= j <= first@.len(),
                header_spec == md_header_cells(row_view(first@)),
                header@.len() == j,
                row_view(header@) == header_spec.take(j as int),
            decreases first@.len() - j,
        {
            if first[j].unicode_len() == 0 {
                let mut sp = String::new();
                sp.append(" ");
                proof {
                    assert(sp@ =~= " "@);
                }
                header.push(sp);
            } else {
                header.push(first[j].clone());
            }
            proof {
                assert(row_view(header@) =~= header_spec.take(j as int + 1));
            }
            j = j + 1;
        }
        proof {
            assert(header_spec.take(first@.len() as int) =~= header_spec);
        }
    } else {
        let mut j: usize = 0;
        proof {
            assert(row_view(header@) =~= header_spec.take(0));
        }
        while j < w
            invariant
                0 <= j <= w,
                header_spec == md_header_cells(Seq::new(w as nat, |k: int| Seq::<char>::empty())),
                header@.len() == j,
                row_view(header@) == header_spec.take(j as int),
            decreases w - j,
        {
            let mut sp = String::new();
            sp.append(" ");
            proof {
                assert(sp@ =~= " "@);
            }
            header.push(sp);
            proof {
                assert(row_view(header@) =~= header_spec.take(j as int + 1));
            }
            j = j + 1;
        }
        proof {
            assert(header_spec.take(w as int) =~= header_spec);
        }
    }
    append_row_line(out, &header);

    // Separator row.
    let ghost sep_spec = Seq::new(w as nat, |k: int| "---"@);
    let mut sep: Vec<String> = Vec::new();
    let mut j: usize = 0;
    proof {
        assert(row_view(sep@) =~= sep_spec.take(0));
    }
    while j < w
        invariant
            0 <= j <= w,
            sep_spec == Seq::new(w as nat, |k: int| "---"@),
            sep@.len() == j,
            row_view(sep@) == sep_spec.take(j as int),
        decreases w - j,
    {
        let mut dash = String::new();
        dash.append("---");
        proof {
            assert(dash@ =~= "---"@);
        }
        sep.push(dash);
        proof {
            assert(row_view(sep@) =~= sep_spec.take(j as int + 1));
        }
        j = j + 1;
    }
    proof {
        assert(sep_spec.take(w as int) =~= sep_spec);
    }
    append_row_line(out, &sep);

    // Body rows.
    let ghost body_spec = if tv.col_header {
        padded_spec.drop_first()
    } else {
        padded_spec
    };
    let body_start: usize = if state.has_column_header {
        1
    } else {
        0
    };
    proof {
        assert(body_spec =~= padded_spec.subrange(body_start as int, padded_spec.len() as int));
    }
    let ghost out_before_body = out@;
    let mut i: usize = body_start;
    proof {
        assert(padded_spec.subrange(body_start as int, body_start as int)
            =~= Seq::<Seq<Seq<char>>>::empty());
    }
    while i < padded.len()
        invariant
            body_start <= i <= padded@.len(),
            rows_view(padded@) == padded_spec,
            tv.row_header == state.has_row_header,
            out@ == out_before_body + md_body_lines(
                padded_spec.subrange(body_start as int, i as int),
                tv.row_header,
            ),
        decreases padded@.len() - i,
    {
        let row = &padded[i];
        proof {
            assert(rows_view(padded@)[i as int] == row_view(padded@[i as int]@));
            assert(padded_spec[i as int] == row_view(row@));
        }
        let ghost line_cells = if tv.row_header {
            md_wrap_first(padded_spec[i as int])
        } else {
            padded_spec[i as int]
        };
        if state.has_row_header && row.len() > 0 {
            let mut wrapped: Vec<String> = Vec::new();
            let head = wrap_str("**", row[0].clone(), "**");
            wrapped.push(head);
            let mut j: usize = 1;
            while j < row.len()
                invariant
                    1 <= j <= row@.len(),
                    row@.len() > 0,
                    wrapped@.len() == j,
                    row_view(wrapped@) == md_wrap_first(row_view(row@)).take(j as int),
                decreases row@.len() - j,
            {
                wrapped.push(row[j].clone());
                proof {
                    assert(row_view(wrapped@) =~= md_wrap_first(row_view(row@)).take(
                        j as int + 1,
                    ));
                }
                j = j + 1;
            }
            proof {
                assert(md_wrap_first(row_view(row@)).take(row@.len() as int) =~= md_wrap_first(
                    row_view(row@),
                ));
                assert(row_view(wrapped@) == line_cells);
            }
            append_row_line(out, &wrapped);
        } else {
            proof {
                assert(row_view(row@) == line_cells);
            }
            append_row_line(out, row);
        }
        proof {
            let sub1 = padded_spec.subrange(body_start as int, i as int + 1);
            assert(sub1.drop_last() =~= padded_spec.subrange(body_start as int, i as int));
            assert(sub1.last() == padded_spec[i as int]);
        }
        i = i + 1;
    }
    out.append("\n");
    proof {
        assert(padded_spec.subrange(body_start as int, padded_spec.len() as int) =~= body_spec);
        assert(out@ =~= old(out)@ + md_flush_table(Some(tv)));
    }
}

// ---------------------------------------------------------------------------
// File-like blocks
// ---------------------------------------------------------------------------

/// A resolved file-like block: link label, source URL, storage path.
pub struct FileLink {
    pub label: String,
    pub url: String,
    pub path: String,
}

/// The resolution of a file-like container: the file URL wins over the
/// external URL; the label is the name, else `File`.
pub open spec fn md_file_link(c: Option<FileContainer>, block_id: Seq<char>) -> Option<
    (Seq<char>, Seq<char>, Seq<char>),
> {
    match c {
        None => None,
        Some(c) => {
            let url = match c.file {
                Some(f) => Some(f.url@),
                None => match c.external {
                    Some(e) => Some(e.url@),
                    None => None,
                },
            };
            match url {
                None => None,
                Some(u) => {
                    let label = match c.name {
                        Some(n) => n@,
                        None => "File"@,
                    };
                    let name_view = match c.name {
                        Some(n) => Some(n@),
                        None => None,
                    };
                    Some((label, u, md_blob_path(block_id, name_view, Some(u))))
                },
            }
        },
    }
}

/// Resolves a file-like container to its label, URL and storage path.
pub fn render_file_link(container: Option<&FileContainer>, block_id: &str) -> (r: Option<FileLink>)
    ensures
        match r {
            None => md_file_link(
                match container {
                    None => None,
                    Some(c) => Some(*c),
                },
                block_id@,
            ) is None,
            Some(link) => md_file_link(
                match container {
                    None => None,
                    Some(c) => Some(*c),
                },
                block_id@,
            ) == Some((link.label@, link.url@, link.path@)),
        },
{
    let c = match container {
        None => {
            return None;
        },
        Some(c) => c,
    };
    let url: String = match &c.file {
        Some(f) => f.url.clone(),
        None => match &c.external {
            Some(e) => e.url.clone(),
            None => {
                return None;
            },
        },
    };
    let label: String = match &c.name {
        Some(n) => n.clone(),
        None => {
            let mut l = String::new();
            l.append("File");
            proof {
                assert(l@ =~= "File"@);
            }
            l
        },
    };
    let name_ref: Option<&str> = match &c.name {
        Some(n) => Some(n.as_str()),
        None => None,
    };
    let path = build_blob_path(block_id, name_ref, Some(url.as_str()));
    Some(FileLink { label, url, path })
}

// ---------------------------------------------------------------------------
// The block walk
// ---------------------------------------------------------------------------

/// The renderer's running state: output so far, blob references in insertion
/// order, the next ordered-list number, and the open table buffer, if any.
pub struct RenderSt {
    pub out: Seq<char>,
    pub blobs: Seq<(Seq<char>, Seq<char>)>,
    pub numbering: int,
    pub table: Option<TableV>,
}

/// The next ordered-list number (saturating at the machine limit).
pub open spec fn sat_inc(n: int) -> int {
    if n < usize::MAX {
        n + 1
    } else {
        n
    }
}

/// The rendered cells of one table row.
pub open spec fn md_row_cells(cells: Seq<Vec<RichText>>) -> Seq<Seq<char>> {
    cells.map_values(|cell: Vec<RichText>| md_rich_text_seq(cell@))
}

/// What one block adds to the state (after any table flush).
pub open spec fn md_emit(st: RenderSt, b: Block) -> RenderSt {
    let ty = b.block_type@;
    if ty == "paragraph"@ {
        match b.paragraph {
            Some(c) => RenderSt {
                out: st.out + md_rich_text_seq(c.rich_text@) + "\n\n"@,
                ..st
            },
            None => st,
        }
    } else if ty == "heading_1"@ {
        match b.heading_1 {
            Some(c) => RenderSt {
                out: st.out + "# "@ + md_rich_text_seq(c.rich_text@) + "\n\n"@,
                ..st
            },
            None => st,
        }
    } else if ty == "heading_2"@ {
        match b.heading_2 {
            Some(c) => RenderSt {
                out: st.out + "## "@ + md_rich_text_seq(c.rich_text@) + "\n\n"@,
                ..st
            },
            None => st,
        }
    } else if ty == "heading_3"@ {
        match b.heading_3 {
            Some(c) => RenderSt {
                out: st.out + "### "@ + md_rich_text_seq(c.rich_text@) + "\n\n"@,
                ..st
            },
            None => st,
        }
    } else if ty == "bulleted_list_item"@ {
        match b.bulleted_list_item {
            Some(c) => RenderSt {
                out: st.out + "- "@ + md_rich_text_seq(c.rich_text@) + "\n"@,
                ..st
            },
            None => st,
        }
    } else if ty == "numbered_list_item"@ {
        match b.numbered_list_item {
            Some(c) => RenderSt {
                out: st.out + spec_dec(st.numbering) + ". "@ + md_rich_text_seq(c.rich_text@)
                    + "\n"@,
                numbering: sat_inc(st.numbering),
                ..st
            },
            None => st,
        }
    } else if ty == "to_do"@ {
        match b.to_do {
            Some(t) => RenderSt {
                out: st.out + (if t.checked {
                    "- [x] "@
                } else {
                    "- [ ] "@
                }) + md_rich_text_seq(t.rich_text@) + "\n"@,
                ..st
            },
            None => st,
        }
    } else if ty == "quote"@ {
        match b.quote {
            Some(c) => RenderSt {
                out: st.out + "> "@ + md_rich_text_seq(c.rich_text@) + "\n\n"@,
                ..st
            },
            None => st,
        }
    } else if ty == "code"@ {
        match b.code {
            Some(c) => RenderSt {
                out: st.out + "```"@ + (match c.language {
                    Some(l) => l@,
                    None => Seq::empty(),
                }) + "\n"@ + md_rich_text_seq(c.rich_text@) + "\n```\n\n"@,
                ..st
            },
            None => st,
        }
    } else if ty == "callout"@ {
        match b.callout {
            Some(c) => RenderSt {
                out: st.out + "> [!NOTE]\n> "@ + md_rich_text_seq(c.rich_text@) + "\n\n"@,
                ..st
            },
            None => st,
        }
    } else if ty == "divider"@ {
        RenderSt { out: st.out + "---\n\n"@, ..st }
    } else if ty == "image"@ {
        match b.image {
            Some(img) => {
                let url = match img.file {
                    Some(f) => Some(f.url@),
                    None => match img.external {
                        Some(e) => Some(e.url@),
                        None => None,
                    },
                };
                match url {
                    Some(u) => {
                        let p = md_blob_path(b.id@, None, Some(u));
                        RenderSt {
                            out: st.out + "![]("@ + md_blob_link(p) + ")\n\n"@,
                            blobs: st.blobs.push((p, u)),
                            ..st
                        }
                    },
                    None => st,
                }
            },
            None => st,
        }
    } else if ty == "bookmark"@ {
        match b.bookmark {
            Some(bm) => RenderSt {
                out: st.out + "["@ + bm.url@ + "]("@ + bm.url@ + ")\n\n"@,
                ..st
            },
            None => st,
        }
    } else if ty == "toggle"@ {
        match b.toggle {
            Some(c) => RenderSt {
                out: st.out + "> **Toggle:** "@ + md_rich_text_seq(c.rich_text@) + "\n\n"@,
                ..st
            },
            None => st,
        }
    } else if ty == "equation"@ {
        match b.equation {
            Some(e) => RenderSt {
                out: st.out + "$$\n"@ + e.expression@ + "\n$$\n\n"@,
                ..st
            },
            None => st,
        }
    } else if ty == "child_page"@ {
        match b.child_page {
            Some(t) => RenderSt { out: st.out + "- [Page] "@ + t.title@ + "\n\n"@, ..st },
            None => st,
        }
    } else if ty == "child_database"@ {
        match b.child_database {
            Some(t) => RenderSt { out: st.out + "- [Database] "@ + t.title@ + "\n\n"@, ..st },
            None => st,
        }
    } else if ty == "table"@ {
        match b.table {
            Some(t) => RenderSt {
                table: Some(
                    TableV {
                        rows: Seq::empty(),
                        width: t.table_width as int,
                        col_header: t.has_column_header,
                        row_header: t.has_row_header,
                    },
                ),
                ..st
            },
            None => st,
        }
    } else if ty == "table_row"@ {
        match (b.table_row, st.table) {
            (Some(r), Some(t)) => RenderSt {
                table: Some(TableV { rows: t.rows.push(md_row_cells(r.cells@)), ..t }),
                ..st
            },
            _ => st,
        }
    } else if ty == "file"@ {
        md_emit_file(st, b.file, b.id@)
    } else if ty == "pdf"@ {
        md_emit_file(st, b.pdf, b.id@)
    } else if ty == "video"@ {
        md_emit_file(st, b.video, b.id@)
    } else if ty == "audio"@ {
        md_emit_file(st, b.audio, b.id@)
    } else if ty == "embed"@ {
        match b.embed {
            Some(e) => RenderSt { out: st.out + "[Embed]("@ + e.url@ + ")\n\n"@, ..st },
            None => st,
        }
    } else if ty == "link_to_page"@ {
        match b.link_to_page {
            Some(l) => RenderSt {
                out: st.out + "[Link] "@ + (match l.page_id {
                    Some(p) => p@,
                    None => match l.database_id {
                        Some(d) => d@,
                        None => "unknown"@,
                    },
                }) + "\n\n"@,
                ..st
            },
            None => st,
        }
    } else if ty == "children"@ {
        RenderSt { out: st.out + "\n"@, ..st }
    } else {
        st
    }
}

/// What a file-like block (file, pdf, video, audio) adds to the state.
pub open spec fn md_emit_file(st: RenderSt, c: Option<FileContainer>, block_id: Seq<char>) -> RenderSt {
    match md_file_link(c, block_id) {
        Some(link) => RenderSt {
            out: st.out + "["@ + link.0 + "]("@ + md_blob_link(link.2) + ")\n\n"@,
            blobs: st.blobs.push((link.2, link.1)),
            ..st
        },
        None => st,
    }
}

/// One full step of the block walk: close the open table unless the block is
/// a `table_row` or a `children` marker, emit the block, and reset the
/// ordered-list numbering unless the block is a `numbered_list_item`.
pub open spec fn md_step(st: RenderSt, b: Block) -> RenderSt {
    let ty = b.block_type@;
    let st0 = if st.table is Some && ty != "table_row"@ && ty != "children"@ {
        RenderSt { out: st.out + md_flush_table(st.table), table: None, ..st }
    } else {
        st
    };
    let st1 = md_emit(st0, b);
    if ty != "numbered_list_item"@ {
        RenderSt { numbering: 1, ..st1 }
    } else {
        st1
    }
}

/// The renderer state after walking the given blocks, starting from an empty
/// document with numbering 1 and no open table.
pub open spec fn md_state(blocks: Seq<Block>) -> RenderSt
    decreases blocks.len(),
{
    if blocks.len() == 0 {
        RenderSt { out: Seq::empty(), blobs: Seq::empty(), numbering: 1, table: None }
    } else {
        md_step(md_state(blocks.drop_last()), blocks.last())
    }
}

/// The body Markdown of a block sequence: the walk's output with the final
/// table, if still open, flushed.
pub open spec fn md_body(blocks: Seq<Block>) -> Seq<char> {
    md_state(blocks).out + md_flush_table(md_state(blocks).table)
}

/// The blob references of a block sequence, in insertion order.
pub open spec fn md_blobs(blocks: Seq<Block>) -> Seq<(Seq<char>, Seq<char>)> {
    md_state(blocks).blobs
}

// ---------------------------------------------------------------------------
// Front matter
// ---------------------------------------------------------------------------

/// The mathematical value of a property value.
pub enum PropV {
    Text(Seq<char>),
    List(Seq<Seq<char>>),
}

/// The mathematical value of a property value.
pub open spec fn pv_view(v: PropertyValue) -> PropV {
    match v {
        PropertyValue::Text(s) => PropV::Text(s@),
        PropertyValue::List(xs) => PropV::List(xs@.map_values(|x: String| x@)),
    }
}

/// The view of an optional string.
pub open spec fn opt_str_view(o: Option<String>) -> Option<Seq<char>> {
    match o {
        None => None,
        Some(s) => Some(s@),
    }
}

/// The (key view, value view) pairs of an entry list.
pub open spec fn entries_view(s: Seq<(String, PropertyValue)>) -> Seq<(Seq<char>, PropV)> {
    s.map_values(|e: (String, PropertyValue)| (e.0@, pv_view(e.1)))
}

/// Whether some string in `v` has the view `s`.
pub open spec fn spec_contains_str(v: Seq<String>, s: Seq<char>) -> bool {
    exists|j: int| 0 <= j < v.len() && v[j]@ == s
}

/// The first value mapped to key `k`, if any.
pub open spec fn spec_lookup(km: Seq<(String, String)>, k: Seq<char>) -> Option<Seq<char>>
    decreases km.len(),
{
    if km.len() == 0 {
        None
    } else if km[0].0@ == k {
        Some(km[0].1@)
    } else {
        spec_lookup(km.drop_first(), k)
    }
}

/// Whether a property passes the include filter.
pub open spec fn fm_keep(k: String, inc: Option<Seq<String>>) -> bool {
    match inc {
        None => true,
        Some(set) => spec_contains_str(set, k@),
    }
}

/// The front-matter key for an upstream property key: translated through the
/// key map when present.
pub open spec fn fm_mapped_key(k: String, km: Seq<(String, String)>) -> Seq<char> {
    match spec_lookup(km, k@) {
        None => k@,
        Some(m) => m,
    }
}

/// The front-matter entries: properties filtered by the include set, keys
/// translated, entries with an empty translated key dropped; input order kept.
pub open spec fn fm_entries(
    props: Seq<(String, PropertyValue)>,
    km: Seq<(String, String)>,
    inc: Option<Seq<String>>,
) -> Seq<(Seq<char>, PropV)>
    decreases props.len(),
{
    if props.len() == 0 {
        Seq::empty()
    } else {
        let rest = fm_entries(props.drop_last(), km, inc);
        let k = props.last().0;
        let v = props.last().1;
        if fm_keep(k, inc) && fm_mapped_key(k, km).len() > 0 {
            rest.push((fm_mapped_key(k, km), pv_view(v)))
        } else {
            rest
        }
    }
}

/// One value of the front-matter mapping: a text, a list of texts, or a
/// nested mapping of texts.
pub enum FmValue {
    Text(String),
    List(Vec<String>),
    Nested(Vec<(String, String)>),
}

/// The mathematical value of a front-matter value.
pub enum FmV {
    Text(Seq<char>),
    List(Seq<Seq<char>>),
    Nested(Seq<(Seq<char>, Seq<char>)>),
}

/// The mathematical value of a front-matter value.
pub open spec fn fm_value_view(v: FmValue) -> FmV {
    match v {
        FmValue::Text(s) => FmV::Text(s@),
        FmValue::List(xs) => FmV::List(xs@.map_values(|x: String| x@)),
        FmValue::Nested(ps) => FmV::Nested(ps@.map_values(|p: (String, String)| (p.0@, p.1@))),
    }
}

/// The (key view, value view) pairs of a front-matter document.
pub open spec fn doc_view(s: Seq<(String, FmValue)>) -> Seq<(Seq<char>, FmV)> {
    s.map_values(|e: (String, FmValue)| (e.0@, fm_value_view(e.1)))
}

/// A property value as a front-matter value.
pub open spec fn fm_of_prop(p: PropV) -> FmV {
    match p {
        PropV::Text(s) => FmV::Text(s),
        PropV::List(l) => FmV::List(l),
    }
}

/// The `_notion` mapping: the page id always, the database id exactly when
/// the page's parent exposes one.
pub open spec fn fm_notion_pairs(page_id: Seq<char>, database_id: Option<Seq<char>>) -> Seq<
    (Seq<char>, Seq<char>),
> {
    seq![("page_id"@, page_id)] + (match database_id {
        None => Seq::empty(),
        Some(d) => seq![("database_id"@, d)],
    })
}

/// The whole front-matter document: the `_notion` mapping first, then the
/// translated property entries in their given order.
pub open spec fn fm_doc(
    page_id: Seq<char>,
    database_id: Option<Seq<char>>,
    entries: Seq<(Seq<char>, PropV)>,
) -> Seq<(Seq<char>, FmV)> {
    seq![("_notion"@, FmV::Nested(fm_notion_pairs(page_id, database_id)))] + entries.map_values(
        |e: (Seq<char>, PropV)| (e.0, fm_of_prop(e.1)),
    )
}

/// The shape of every front-matter document: `_notion` stands first, mapping
/// `page_id` to the page's id, then `database_id` exactly when the parent
/// exposes one; the remaining keys are the translated entries, in order.
pub proof fn lemma_front_matter_structure(
    page_id: Seq<char>,
    database_id: Option<Seq<char>>,
    entries: Seq<(Seq<char>, PropV)>,
)
    ensures
        ({
            let d = fm_doc(page_id, database_id, entries);
            let meta = fm_notion_pairs(page_id, database_id);
            &&& d.len() == 1 + entries.len()
            &&& d[0].0 == "_notion"@
            &&& d[0].1 == FmV::Nested(meta)
            &&& meta[0] == ("page_id"@, page_id)
            &&& meta.len() == (if database_id is Some {
                2int
            } else {
                1int
            })
            &&& (database_id is Some ==> meta[1] == ("database_id"@, database_id.unwrap()))
            &&& forall|i: int|
                0 <= i < entries.len() ==> d[i + 1] == (
                    entries[i].0,
                    fm_of_prop(#[trigger] entries[i].1),
                )
        }),
{
    let d = fm_doc(page_id, database_id, entries);
    let mapped = entries.map_values(|e: (Seq<char>, PropV)| (e.0, fm_of_prop(e.1)));
    assert(forall|i: int| 0 <= i < entries.len() ==> d[i + 1] == #[trigger] mapped[i]);
}

/// What `serde_yaml` emits for a front-matter document: a function of the
/// document's keys and values alone, keys in the document's order.
pub uninterp spec fn yaml_of(doc: Seq<(Seq<char>, FmV)>) -> Seq<char>;

/// Relies on `serde_yaml::to_string` over a `Mapping` (insertion-ordered):
/// its output is a function of the document alone.
#[verifier::external_body]
fn yaml_emit(doc: &Vec<(String, FmValue)>) -> (r: String)
    ensures
        r@ == yaml_of(doc_view(doc@)),
{
    let mut m = Mapping::new();
    for (k, v) in doc {
        m.insert(Yaml::String(k.clone()), match v {
            FmValue::Text(s) => Yaml::String(s.clone()),
            FmValue::List(xs) => Yaml::Sequence(xs.iter().map(|x| Yaml::String(x.clone())).collect()),
            FmValue::Nested(ps) => Yaml::Mapping(
                ps.iter().map(|p| (Yaml::String(p.0.clone()), Yaml::String(p.1.clone()))).collect(),
            ),
        });
    }
    serde_yaml::to_string(&m).unwrap_or_default()
}

fn clone_strings(xs: &Vec<String>) -> (r: Vec<String>)
    ensures
        r@.len() == xs@.len(),
        forall|i: int| 0 <= i < xs@.len() ==> r@[i]@ == xs@[i]@,
{
    let mut out: Vec<String> = Vec::new();
    let mut i: usize = 0;
    while i < xs.len()
        invariant
            0 <= i <= xs@.len(),
            out@.len() == i,
            forall|t: int| 0 <= t < i ==> out@[t]@ == xs@[t]@,
        decreases xs@.len() - i,
    {
        out.push(xs[i].clone());
        i = i + 1;
    }
    out
}

/// Assembles the front-matter document: `_notion` first, with the page id
/// and, exactly when present, the database id; then the entries in order.
pub fn fm_document(
    page_id: &String,
    database_id: &Option<String>,
    entries: &Vec<(String, PropertyValue)>,
) -> (r: Vec<(String, FmValue)>)
    ensures
        doc_view(r@) == fm_doc(page_id@, opt_str_view(*database_id), entries_view(entries@)),
{
    let mut notion_pairs: Vec<(String, String)> = Vec::new();
    notion_pairs.push((String::from_str("page_id"), page_id.clone()));
    match database_id {
        None => {},
        Some(d) => {
            notion_pairs.push((String::from_str("database_id"), d.clone()));
        },
    }
    proof {
        assert(notion_pairs@.map_values(|p: (String, String)| (p.0@, p.1@)) =~= fm_notion_pairs(
            page_id@,
            opt_str_view(*database_id),
        ));
    }
    let mut doc: Vec<(String, FmValue)> = Vec::new();
    doc.push((String::from_str("_notion"), FmValue::Nested(notion_pairs)));
    let ghost target = fm_doc(page_id@, opt_str_view(*database_id), entries_view(entries@));
    proof {
        assert(doc_view(doc@) =~= target.take(1));
    }
    let mut i: usize = 0;
    while i < entries.len()
        invariant
            0 <= i <= entries@.len(),
            target == fm_doc(page_id@, opt_str_view(*database_id), entries_view(entries@)),
            target.len() == 1 + entries@.len(),
            doc_view(doc@) == target.take(1 + i as int),
        decreases entries@.len() - i,
    {
        let e = &entries[i];
        let value: FmValue = match &e.1 {
            PropertyValue::Text(s) => FmValue::Text(s.clone()),
            PropertyValue::List(xs) => {
                let ys = clone_strings(xs);
                proof {
                    assert(ys@.map_values(|x: String| x@) =~= xs@.map_values(|x: String| x@));
                }
                FmValue::List(ys)
            },
        };
        proof {
            assert(fm_value_view(value) == fm_of_prop(pv_view(entries@[i as int].1)));
        }
        let ghost doc_pre = doc@;
        doc.push((e.0.clone(), value));
        proof {
            let ev = entries_view(entries@);
            assert(ev[i as int] == (entries@[i as int].0@, pv_view(entries@[i as int].1)));
            let mapped = ev.map_values(|p: (Seq<char>, PropV)| (p.0, fm_of_prop(p.1)));
            assert(mapped[i as int] == (ev[i as int].0, fm_of_prop(ev[i as int].1)));
            assert(target[1 + i as int] == mapped[i as int]);
            let n1 = 1 + i as int + 1;
            assert(doc_view(doc_pre).len() == doc_pre.len());
            assert(doc_pre.len() == 1 + i as int);
            assert(doc@.len() == doc_pre.len() + 1);
            assert forall|k: int| 0 <= k < n1 implies doc_view(doc@)[k] == target.take(n1)[k] by {
                assert(doc_view(doc@)[k] == (doc@[k].0@, fm_value_view(doc@[k].1)));
                if k < n1 - 1 {
                    assert(doc@[k] == doc_pre[k]);
                    assert(doc_view(doc_pre)[k] == (doc_pre[k].0@, fm_value_view(doc_pre[k].1)));
                    assert(doc_view(doc_pre)[k] == target.take(1 + i as int)[k]);
                } else {
                    assert(doc@[k] == (entries@[i as int].0, value));
                }
            }
            assert(doc_view(doc@) =~= target.take(n1));
        }
        i = i + 1;
    }
    proof {
        assert(target.take(1 + entries@.len() as int) =~= target);
    }
    doc
}

/// The emitted YAML with a leading document marker stripped and a trailing
/// newline guaranteed.
pub open spec fn fm_normalize(y: Seq<char>) -> Seq<char> {
    let y1 = if y.len() >= "---\n"@.len() && y.take("---\n"@.len() as int) == "---\n"@ {
        y.skip("---\n"@.len() as int)
    } else {
        y
    };
    if y1.len() == 0 || y1.last() != '\n' {
        y1.push('\n')
    } else {
        y1
    }
}

/// The whole front-matter section of a page.
pub open spec fn md_front_matter(
    page_id: Seq<char>,
    database_id: Option<Seq<char>>,
    props: Seq<(String, PropertyValue)>,
    km: Seq<(String, String)>,
    inc: Option<Seq<String>>,
) -> Seq<char> {
    "---\n"@ + fm_normalize(yaml_of(fm_doc(page_id, database_id, fm_entries(props, km, inc))))
        + "---\n\n"@
}

/// The view of the optional include list.
pub open spec fn inc_view(o: Option<&Vec<String>>) -> Option<Seq<String>> {
    match o {
        None => None,
        Some(v) => Some(v@),
    }
}

/// The whole Markdown document of a page.
pub open spec fn md_document(
    m: PageMetadata,
    km: Seq<(String, String)>,
    inc: Option<Seq<String>>,
    blocks: Seq<Block>,
) -> Seq<char> {
    md_front_matter(m.id@, opt_str_view(m.parent.database_id), m.properties@, km, inc) + md_body(
        blocks,
    )
}

/// Whether some string in the list equals `s`.
pub fn contains_str(v: &Vec<String>, s: &String) -> (r: bool)
    ensures
        r == spec_contains_str(v@, s@),
{
    let mut i: usize = 0;
    while i < v.len()
        invariant
            0 <= i <= v@.len(),
            forall|j: int| 0 <= j < i ==> v@[j]@ != s@,
        decreases v@.len() - i,
    {
        if crate::strings::str_eq(v[i].as_str(), s.as_str()) {
            return true;
        }
        i = i + 1;
    }
    false
}

/// Looks a key up in an association list, first match wins.
pub fn lookup_map(km: &Vec<(String, String)>, k: &String) -> (r: Option<String>)
    ensures
        match r {
            None => spec_lookup(km@, k@) is None,
            Some(m) => spec_lookup(km@, k@) == Some(m@),
        },
{
    let mut i: usize = 0;
    proof {
        assert(km@.skip(0) =~= km@);
    }
    while i < km.len()
        invariant
            0 <= i <= km@.len(),
            spec_lookup(km@.skip(i as int), k@) == spec_lookup(km@, k@),
        decreases km@.len() - i,
    {
        proof {
            assert(km@.skip(i as int)[0] == km@[i as int]);
            assert(km@.skip(i as int).drop_first() =~= km@.skip(i as int + 1));
        }
        if crate::strings::str_eq(km[i].0.as_str(), k.as_str()) {
            return Some(km[i].1.clone());
        }
        i = i + 1;
    }
    None
}

fn clone_property_value(v: &PropertyValue) -> (r: PropertyValue)
    ensures
        pv_view(r) == pv_view(*v),
{
    match v {
        PropertyValue::Text(s) => PropertyValue::Text(s.clone()),
        PropertyValue::List(xs) => {
            let mut ys: Vec<String> = Vec::new();
            let mut j: usize = 0;
            while j < xs.len()
                invariant
                    0 <= j <= xs@.len(),
                    ys@.len() == j,
                    forall|t: int| 0 <= t < j ==> ys@[t]@ == xs@[t]@,
                decreases xs@.len() - j,
            {
                ys.push(xs[j].clone());
                j = j + 1;
            }
            proof {
                assert(ys@.map_values(|x: String| x@) =~= xs@.map_values(|x: String| x@));
            }
            PropertyValue::List(ys)
        },
    }
}

fn normalize_yaml(y: String) -> (r: String)
    ensures
        r@ == fm_normalize(y@),
{
    proof {
        reveal_strlit("---\n");
    }
    let stripped: String = if crate::strings::has_prefix(y.as_str(), "---\n") {
        let n = y.as_str().unicode_len();
        let tail = y.as_str().substring_char(4, n);
        String::from_str(tail)
    } else {
        y
    };
    let n2 = stripped.as_str().unicode_len();
    let needs_newline = n2 == 0 || stripped.as_str().get_char(n2 - 1) != '\n';
    let mut r = stripped;
    if needs_newline {
        crate::strings::push_char(&mut r, '\n');
    }
    r
}

/// Renders a page: YAML front-matter from the metadata, then the block walk.
pub fn render_page(
    metadata: &PageMetadata,
    blocks: &[Block],
    key_map: &Vec<(String, String)>,
    property_includes: Option<&Vec<String>>,
) -> (r: Rendered)
    ensures
        r.markdown@ == md_document(*metadata, key_map@, inc_view(property_includes), blocks@),
        blob_views(r.blobs@) == md_blobs(blocks@),
{
    let ghost inc = inc_view(property_includes);
    let mut entries: Vec<(String, PropertyValue)> = Vec::new();
    let mut i: usize = 0;
    proof {
        assert(entries_view(entries@) =~= fm_entries(
            metadata.properties@.take(0),
            key_map@,
            inc,
        ));
    }
    while i < metadata.properties.len()
        invariant
            0 <= i <= metadata.properties@.len(),
            inc == inc_view(property_includes),
            entries_view(entries@) == fm_entries(
                metadata.properties@.take(i as int),
                key_map@,
                inc,
            ),
        decreases metadata.properties@.len() - i,
    {
        let kv = &metadata.properties[i];
        let keep = match property_includes {
            None => true,
            Some(set) => contains_str(set, &kv.0),
        };
        if keep {
            let mapped: String = match lookup_map(key_map, &kv.0) {
                None => kv.0.clone(),
                Some(m) => m,
            };
            if !mapped.as_str().is_empty() {
                let value = clone_property_value(&kv.1);
                entries.push((mapped, value));
            }
        }
        proof {
            let props = metadata.properties@;
            assert(props.take(i as int + 1).drop_last() =~= props.take(i as int));
            assert(props.take(i as int + 1).last() == props[i as int]);
            assert(entries_view(entries@) =~= fm_entries(
                props.take(i as int + 1),
                key_map@,
                inc,
            ));
        }
        i = i + 1;
    }
    proof {
        assert(metadata.properties@.take(metadata.properties@.len() as int)
            =~= metadata.properties@);
    }
    let doc = fm_document(&metadata.id, &metadata.parent.database_id, &entries);
    let yaml = yaml_emit(&doc);
    let normalized = normalize_yaml(yaml);
    let mut markdown = String::new();
    markdown.append("---\n");
    markdown.append(normalized.as_str());
    markdown.append("---\n\n");
    let body = render_blocks(blocks);
    markdown.append(body.0.as_str());
    proof {
        assert(markdown@ =~= md_document(
            *metadata,
            key_map@,
            inc_view(property_includes),
            blocks@,
        ));
    }
    Rendered { markdown, blobs: body.1 }
}

// ---------------------------------------------------------------------------
// Laws
// ---------------------------------------------------------------------------

/// The length of the run of `numbered_list_item` blocks ending the sequence,
/// counting those with a payload.
pub open spec fn num_run(s: Seq<Block>) -> int
    decreases s.len(),
{
    if s.len() == 0 {
        0
    } else if s.last().block_type@ == "numbered_list_item"@ {
        (if s.last().numbered_list_item is Some {
            1int
        } else {
            0int
        }) + num_run(s.drop_last())
    } else {
        0
    }
}

/// Ordered-list numbering: after any prefix, the next number is one more than
/// the run of numbered items ending it — numbering increments across
/// consecutive numbered items and any other block resets it to one.
#[verifier::rlimit(100)]
pub proof fn lemma_numbering(s: Seq<Block>)
    ensures
        md_state(s).numbering == if 1 + num_run(s) <= usize::MAX {
            1 + num_run(s)
        } else {
            usize::MAX as int
        },
    decreases s.len(),
{
    if s.len() > 0 {
        lemma_numbering(s.drop_last());
        let st = md_state(s.drop_last());
        let b = s.last();
        let ty = b.block_type@;
        let st0 = if st.table is Some && ty != "table_row"@ && ty != "children"@ {
            RenderSt { out: st.out + md_flush_table(st.table), table: None, ..st }
        } else {
            st
        };
        assert(st0.numbering == st.numbering);
        if ty == "numbered_list_item"@ {
            reveal_strlit("numbered_list_item");
            reveal_strlit("paragraph");
            reveal_strlit("heading_1");
            reveal_strlit("heading_2");
            reveal_strlit("heading_3");
            reveal_strlit("bulleted_list_item");
            assert(ty != "paragraph"@) by {
                assert(ty.len() == 18 && "paragraph"@.len() == 9);
            }
            assert(ty != "heading_1"@) by {
                assert(ty.len() == 18 && "heading_1"@.len() == 9);
            }
            assert(ty != "heading_2"@) by {
                assert(ty.len() == 18 && "heading_2"@.len() == 9);
            }
            assert(ty != "heading_3"@) by {
                assert(ty.len() == 18 && "heading_3"@.len() == 9);
            }
            assert(ty != "bulleted_list_item"@) by {
                assert(ty[0] == 'n' && "bulleted_list_item"@[0] == 'b');
            }
            match b.numbered_list_item {
                Some(_) => {
                    assert(md_emit(st0, b).numbering == sat_inc(st0.numbering));
                },
                None => {
                    assert(md_emit(st0, b).numbering == st0.numbering);
                },
            }
            assert(md_state(s).numbering == md_emit(st0, b).numbering);
        } else {
            assert(md_state(s).numbering == 1);
            assert(num_run(s) == 0);
        }
    }
}

/// Distinct block ids give distinct blob paths, whatever names and URLs the
/// blocks carry.
pub proof fn lemma_blob_paths_distinct(
    id1: Seq<char>,
    n1: Option<Seq<char>>,
    u1: Option<Seq<char>>,
    id2: Seq<char>,
    n2: Option<Seq<char>>,
    u2: Option<Seq<char>>,
)
    requires
        id1 != id2,
    ensures
        md_blob_path(id1, n1, u1) != md_blob_path(id2, n2, u2),
{
    let e1 = md_blob_ext(n1, u1);
    let e2 = md_blob_ext(n2, u2);
    lemma_blob_ext_ok(n1, u1);
    lemma_blob_ext_ok(n2, u2);
    let p1 = md_blob_path(id1, n1, u1);
    let p2 = md_blob_path(id2, n2, u2);
    reveal_strlit("blobs/");
    reveal_strlit(".");
    if p1 == p2 {
        assert(p1.len() == 6 + id1.len() + 1 + e1.len());
        assert(p2.len() == 6 + id2.len() + 1 + e2.len());
        if e1.len() == e2.len() {
            assert(id1.len() == id2.len());
            assert forall|i: int| 0 <= i < id1.len() implies id1[i] == id2[i] by {
                assert(p1[6 + i] == id1[i]);
                assert(p2[6 + i] == id2[i]);
            }
            assert(id1 =~= id2);
        } else if e1.len() < e2.len() {
            let pos = p1.len() - e1.len() - 1;
            assert(p1[pos] == '.');
            assert(p2[pos] == e2[pos - (6 + id2.len() + 1)]);
            assert(e2[pos - (6 + id2.len() + 1)] != '.');
        } else {
            let pos = p2.len() - e2.len() - 1;
            assert(p2[pos] == '.');
            assert(p1[pos] == e1[pos - (6 + id1.len() + 1)]);
            assert(e1[pos - (6 + id1.len() + 1)] != '.');
        }
    }
}

/// A blob extension is non-empty and holds no dot.
pub proof fn lemma_blob_ext_ok(name: Option<Seq<char>>, url: Option<Seq<char>>)
    ensures
        md_blob_ext(name, url).len() > 0,
        forall|i: int| 0 <= i < md_blob_ext(name, url).len() ==> md_blob_ext(name, url)[i] != '.',
{
    let from_name = match name {
        None => None,
        Some(n) => md_ext_from_name(n),
    };
    let from_url = match url {
        None => None,
        Some(u) => md_ext_from_url(u),
    };
    if from_name is Some {
        lemma_ext_from_name_ok(name.unwrap());
    } else if from_url is Some {
        let u = url.unwrap();
        let no_query = spec_before(u, '?');
        let no_fragment = spec_before(no_query, '#');
        lemma_ext_from_name_ok(spec_after_last(no_fragment, '/'));
    } else {
        reveal_strlit("bin");
        assert(md_blob_ext(name, url) == "bin"@);
        assert(forall|i: int| 0 <= i < 3 ==> "bin"@[i] != '.');
    }
}

proof fn lemma_ext_from_name_ok(n: Seq<char>)
    ensures
        match md_ext_from_name(n) {
            None => true,
            Some(e) => e.len() > 0 && (forall|i: int| 0 <= i < e.len() ==> e[i] != '.'),
        },
{
    let t = spec_trim(n);
    crate::strings::lemma_spec_rfind_props(t, '.');
    match spec_rfind(t, '.') {
        None => {},
        Some(p) => {
            let raw = t.skip(p + 1);
            if raw.len() > 0 {
                assert(forall|i: int| 0 <= i < raw.len() ==> raw[i] == t[p + 1 + i]);
                assert(forall|i: int| 0 <= i < raw.len() ==> raw[i] != '.');
                let e = spec_lower(raw);
                assert forall|i: int| 0 <= i < e.len() implies e[i] != '.' by {
                    assert(e[i] == crate::strings::lower_char(raw[i]));
                    lemma_lower_keeps_dot_free(raw[i]);
                }
            }
        },
    }
}

proof fn lemma_lower_keeps_dot_free(c: char)
    requires
        c != '.',
    ensures
        crate::strings::lower_char(c) != '.',
{
    if 'A' <= c && c <= 'Z' {
        let v = (c as u32) + 32;
        assert(97 <= v <= 122);
        assert(((v as u8) as char) as u32 == v);
        assert('.' as u32 == 46);
    }
}

/// Whether `p` is a blob path that block `b` can produce: `b`'s id with some
/// name- or URL-derived extension.
pub open spec fn path_of_block(p: Seq<char>, b: Block) -> bool {
    exists|n: Option<Seq<char>>, u: Option<Seq<char>>| p == md_blob_path(b.id@, n, u)
}

/// Every blob path was produced by one of the given blocks.
pub open spec fn blobs_from(blobs: Seq<(Seq<char>, Seq<char>)>, blocks: Seq<Block>) -> bool {
    forall|i: int|
        0 <= i < blobs.len() ==> exists|j: int|
            0 <= j < blocks.len() && path_of_block((#[trigger] blobs[i]).0, blocks[j])
}

/// One block adds at most one blob, and then a blob of its own id.
#[verifier::rlimit(100)]
proof fn lemma_emit_blob_form(st: RenderSt, b: Block)
    ensures
        md_emit(st, b).blobs == st.blobs || (md_emit(st, b).blobs.len() == st.blobs.len() + 1
            && md_emit(st, b).blobs.take(st.blobs.len() as int) == st.blobs && path_of_block(
            md_emit(st, b).blobs.last().0,
            b,
        )),
{
    let nb = md_emit(st, b).blobs;
    if nb != st.blobs {
        assert(nb.take(st.blobs.len() as int) =~= st.blobs);
    }
}

/// Every blob of a walk comes from one of its blocks.
proof fn lemma_blobs_from_blocks(blocks: Seq<Block>)
    ensures
        blobs_from(md_blobs(blocks), blocks),
    decreases blocks.len(),
{
    if blocks.len() > 0 {
        let prefix = blocks.drop_last();
        let b = blocks.last();
        lemma_blobs_from_blocks(prefix);
        let st = md_state(prefix);
        let ty = b.block_type@;
        let st0 = if st.table is Some && ty != "table_row"@ && ty != "children"@ {
            RenderSt { out: st.out + md_flush_table(st.table), table: None, ..st }
        } else {
            st
        };
        assert(st0.blobs == st.blobs);
        lemma_emit_blob_form(st0, b);
        assert(md_blobs(blocks) == md_emit(st0, b).blobs);
        let nb = md_blobs(blocks);
        let old_blobs = md_blobs(prefix);
        assert(forall|j: int| 0 <= j < prefix.len() ==> prefix[j] == blocks[j]);
        assert forall|i: int| 0 <= i < nb.len() implies exists|j: int|
            0 <= j < blocks.len() && path_of_block((#[trigger] nb[i]).0, blocks[j]) by {
            if nb == old_blobs {
                let j = choose|j: int|
                    0 <= j < prefix.len() && path_of_block(old_blobs[i].0, prefix[j]);
                assert(path_of_block(nb[i].0, blocks[j]));
            } else if i < old_blobs.len() {
                assert(nb[i] == nb.take(old_blobs.len() as int)[i]);
                let j = choose|j: int|
                    0 <= j < prefix.len() && path_of_block(old_blobs[i].0, prefix[j]);
                assert(path_of_block(nb[i].0, blocks[j]));
            } else {
                assert(nb[i] == nb.last());
                assert(path_of_block(nb[i].0, blocks[blocks.len() - 1]));
            }
        }
    }
}

/// Within one page, blocks with pairwise-distinct ids give pairwise-distinct
/// blob paths.
pub proof fn lemma_page_blob_paths_unique(blocks: Seq<Block>)
    requires
        forall|i: int, j: int|
            0 <= i < j < blocks.len() ==> (#[trigger] blocks[i]).id@ != (#[trigger] blocks[j]).id@,
    ensures
        forall|i1: int, i2: int|
            0 <= i1 < i2 < md_blobs(blocks).len() ==> (#[trigger] md_blobs(blocks)[i1]).0 != (
            #[trigger] md_blobs(blocks)[i2]).0,
    decreases blocks.len(),
{
    if blocks.len() > 0 {
        let prefix = blocks.drop_last();
        let b = blocks.last();
        assert(forall|j: int| 0 <= j < prefix.len() ==> prefix[j] == blocks[j]);
        lemma_page_blob_paths_unique(prefix);
        lemma_blobs_from_blocks(prefix);
        let st = md_state(prefix);
        let ty = b.block_type@;
        let st0 = if st.table is Some && ty != "table_row"@ && ty != "children"@ {
            RenderSt { out: st.out + md_flush_table(st.table), table: None, ..st }
        } else {
            st
        };
        assert(st0.blobs == st.blobs);
        lemma_emit_blob_form(st0, b);
        assert(md_blobs(blocks) == md_emit(st0, b).blobs);
        let nb = md_blobs(blocks);
        let old_blobs = md_blobs(prefix);
        assert forall|i1: int, i2: int| 0 <= i1 < i2 < nb.len() implies (#[trigger] nb[i1]).0 != (
        #[trigger] nb[i2]).0 by {
            if nb == old_blobs {
            } else {
                assert(nb.take(old_blobs.len() as int) == old_blobs);
                if i2 < old_blobs.len() {
                    assert(nb[i1] == old_blobs[i1] && nb[i2] == old_blobs[i2]);
                } else {
                    assert(i2 == old_blobs.len());
                    assert(nb[i1] == old_blobs[i1]);
                    assert(nb[i2] == nb.last());
                    let j = choose|j: int|
                        0 <= j < prefix.len() && path_of_block(old_blobs[i1].0, prefix[j]);
                    let (n1, u1) = choose|n: Option<Seq<char>>, u: Option<Seq<char>>|
                        old_blobs[i1].0 == md_blob_path(prefix[j].id@, n, u);
                    let (n2, u2) = choose|n: Option<Seq<char>>, u: Option<Seq<char>>|
                        nb.last().0 == md_blob_path(b.id@, n, u);
                    assert(blocks[j].id@ != blocks[blocks.len() - 1].id@);
                    lemma_blob_paths_distinct(prefix[j].id@, n1, u1, b.id@, n2, u2);
                }
            }
        }
    }
}

/// A table without a column header opens with a blank header row, then the
/// separator, then all rows as the body.
pub proof fn lemma_table_blank_header(t: TableV)
    requires
        !t.col_header,
        t.rows.len() > 0,
    ensures
        ({
            let w = md_max_width(t.rows, t.width);
            md_flush_table(Some(t)) == md_row_line(Seq::new(w as nat, |i: int| " "@))
                + md_row_line(Seq::new(w as nat, |i: int| "---"@)) + md_body_lines(
                t.rows.map_values(|r: Seq<Seq<char>>| md_pad_row(r, w)),
                t.row_header,
            ) + "\n"@
        }),
{
    let w = md_max_width(t.rows, t.width);
    assert(md_header_cells(Seq::new(w as nat, |i: int| Seq::<char>::empty())) =~= Seq::new(
        w as nat,
        |i: int| " "@,
    ));
}

fn emit_file_like(
    out: &mut String,
    blobs: &mut Vec<BlobRef>,
    container: Option<&FileContainer>,
    block_id: &str,
)
    ensures
        ({
            let c = match container {
                None => None,
                Some(x) => Some(*x),
            };
            match md_file_link(c, block_id@) {
                Some(link) => final(out)@ == old(out)@ + "["@ + link.0 + "]("@ + md_blob_link(
                    link.2,
                ) + ")\n\n"@ && blob_views(final(blobs)@) == blob_views(old(blobs)@).push(
                    (link.2, link.1),
                ),
                None => final(out)@ == old(out)@ && final(blobs)@ == old(blobs)@,
            }
        }),
{
    if let Some(link) = render_file_link(container, block_id) {
        let target = format_blob_link(link.path.as_str());
        blobs.push(BlobRef { path: link.path, url: link.url.clone() });
        out.append("[");
        out.append(link.label.as_str());
        out.append("](");
        out.append(target.as_str());
        out.append(")\n\n");
        proof {
            let c = match container {
                None => None::<FileContainer>,
                Some(x) => Some(*x),
            };
            let linkv = md_file_link(c, block_id@).unwrap();
            assert(out@ =~= old(out)@ + "["@ + linkv.0 + "]("@ + md_blob_link(linkv.2)
                + ")\n\n"@);
            assert(blob_views(blobs@) =~= blob_views(old(blobs)@).push((linkv.2, linkv.1)));
        }
    }
}

/// Walks a flattened block sequence, producing the body Markdown and the blob
/// references in insertion order.
#[verifier::rlimit(100)]
pub fn render_blocks(blocks: &[Block]) -> (r: (String, Vec<BlobRef>))
    ensures
        r.0@ == md_body(blocks@),
        blob_views(r.1@) == md_blobs(blocks@),
{
    let mut out = String::new();
    let mut blobs: Vec<BlobRef> = Vec::new();
    let mut numbering: usize = 1;
    let mut table_state: Option<TableState> = None;
    let mut i: usize = 0;
    proof {
        assert(blocks@.take(0) =~= Seq::<Block>::empty());
        assert(blob_views(blobs@) =~= Seq::<(Seq<char>, Seq<char>)>::empty());
    }
    while i < blocks.len()
        invariant
            0 <= i <= blocks@.len(),
            out@ == md_state(blocks@.take(i as int)).out,
            blob_views(blobs@) == md_state(blocks@.take(i as int)).blobs,
            numbering as int == md_state(blocks@.take(i as int)).numbering,
            opt_table_view(table_state) == md_state(blocks@.take(i as int)).table,
        decreases blocks@.len() - i,
    {
        let ghost pre = md_state(blocks@.take(i as int));
        let b = &blocks[i];
        let is_table_row = crate::strings::str_eq(b.block_type.as_str(), "table_row");
        let is_children = crate::strings::str_eq(b.block_type.as_str(), "children");
        let is_numbered = crate::strings::str_eq(b.block_type.as_str(), "numbered_list_item");

        if table_state.is_some() && !is_table_row && !is_children {
            let open_table = table_state;
            table_state = None;
            flush_table(&mut out, open_table);
        }
        let ghost st0 = if pre.table is Some && b.block_type@ != "table_row"@ && b.block_type@
            != "children"@ {
            RenderSt { out: pre.out + md_flush_table(pre.table), table: None, ..pre }
        } else {
            pre
        };
        proof {
            assert(out@ == st0.out);
            assert(opt_table_view(table_state) == st0.table);
        }

        if crate::strings::str_eq(b.block_type.as_str(), "paragraph") {
            if let Some(c) = &b.paragraph {
                let t = render_rich_text(c);
                out.append(t.as_str());
                out.append("\n\n");
            }
        } else if crate::strings::str_eq(b.block_type.as_str(), "heading_1") {
            if let Some(c) = &b.heading_1 {
                let t = render_rich_text(c);
                out.append("# ");
                out.append(t.as_str());
                out.append("\n\n");
            }
        } else if crate::strings::str_eq(b.block_type.as_str(), "heading_2") {
            if let Some(c) = &b.heading_2 {
                let t = render_rich_text(c);
                out.append("## ");
                out.append(t.as_str());
                out.append("\n\n");
            }
        } else if crate::strings::str_eq(b.block_type.as_str(), "heading_3") {
            if let Some(c) = &b.heading_3 {
                let t = render_rich_text(c);
                out.append("### ");
                out.append(t.as_str());
                out.append("\n\n");
            }
        } else if crate::strings::str_eq(b.block_type.as_str(), "bulleted_list_item") {
            if let Some(c) = &b.bulleted_list_item {
                let t = render_rich_text(c);
                out.append("- ");
                out.append(t.as_str());
                out.append("\n");
            }
        } else if is_numbered {
            if let Some(c) = &b.numbered_list_item {
                let t = render_rich_text(c);
                let n = usize_to_string(numbering);
                out.append(n.as_str());
                out.append(". ");
                out.append(t.as_str());
                out.append("\n");
                if numbering < usize::MAX {
                    numbering = numbering + 1;
                }
            }
        } else if crate::strings::str_eq(b.block_type.as_str(), "to_do") {
            if let Some(t) = &b.to_do {
                let text = render_rich_text_vec(&t.rich_text);
                if t.checked {
                    out.append("- [x] ");
                } else {
                    out.append("- [ ] ");
                }
                out.append(text.as_str());
                out.append("\n");
            }
        } else if crate::strings::str_eq(b.block_type.as_str(), "quote") {
            if let Some(c) = &b.quote {
                let t = render_rich_text(c);
                out.append("> ");
                out.append(t.as_str());
                out.append("\n\n");
            }
        } else if crate::strings::str_eq(b.block_type.as_str(), "code") {
            if let Some(c) = &b.code {
                let t = render_rich_text_vec(&c.rich_text);
                out.append("```");
                match &c.language {
                    Some(l) => out.append(l.as_str()),
                    None => (),
                }
                out.append("\n");
                out.append(t.as_str());
                out.append("\n```\n\n");
            }
        } else if crate::strings::str_eq(b.block_type.as_str(), "callout") {
            if let Some(c) = &b.callout {
                let t = render_rich_text_vec(&c.rich_text);
                out.append("> [!NOTE]\n> ");
                out.append(t.as_str());
                out.append("\n\n");
            }
        } else if crate::strings::str_eq(b.block_type.as_str(), "divider") {
            out.append("---\n\n");
        } else if crate::strings::str_eq(b.block_type.as_str(), "image") {
            if let Some(img) = &b.image {
                let url_opt: Option<String> = match &img.file {
                    Some(f) => Some(f.url.clone()),
                    None => match &img.external {
                        Some(e) => Some(e.url.clone()),
                        None => None,
                    },
                };
                if let Some(u) = url_opt {
                    let p = build_blob_path(b.id.as_str(), None, Some(u.as_str()));
                    let link = format_blob_link(p.as_str());
                    blobs.push(BlobRef { path: p, url: u });
                    out.append("![](");
                    out.append(link.as_str());
                    out.append(")\n\n");
                    proof {
                        assert(out@ == md_emit(st0, blocks@[i as int]).out);
                        assert(blob_views(blobs@) =~= md_emit(st0, blocks@[i as int]).blobs);
                    }
                }
            }
        } else if crate::strings::str_eq(b.block_type.as_str(), "bookmark") {
            if let Some(bm) = &b.bookmark {
                out.append("[");
                out.append(bm.url.as_str());
                out.append("](");
                out.append(bm.url.as_str());
                out.append(")\n\n");
            }
        } else if crate::strings::str_eq(b.block_type.as_str(), "toggle") {
            if let Some(c) = &b.toggle {
                let t = render_rich_text(c);
                out.append("> **Toggle:** ");
                out.append(t.as_str());
                out.append("\n\n");
            }
        } else if crate::strings::str_eq(b.block_type.as_str(), "equation") {
            if let Some(e) = &b.equation {
                out.append("$$\n");
                out.append(e.expression.as_str());
                out.append("\n$$\n\n");
            }
        } else if crate::strings::str_eq(b.block_type.as_str(), "child_page") {
            if let Some(t) = &b.child_page {
                out.append("- [Page] ");
                out.append(t.title.as_str());
                out.append("\n\n");
            }
        } else if crate::strings::str_eq(b.block_type.as_str(), "child_database") {
            if let Some(t) = &b.child_database {
                out.append("- [Database] ");
                out.append(t.title.as_str());
                out.append("\n\n");
            }
        } else if crate::strings::str_eq(b.block_type.as_str(), "table") {
            if let Some(t) = &b.table {
                table_state = Some(
                    TableState::new(t.table_width, t.has_column_header, t.has_row_header),
                );
            }
        } else if is_table_row {
            if let Some(r) = &b.table_row {
                let open_table = table_state;
                table_state = None;
                match open_table {
                    None => {},
                    Some(mut ts) => {
                        let mut cells: Vec<String> = Vec::new();
                        let mut j: usize = 0;
                        proof {
                            assert(row_view(cells@) =~= md_row_cells(r.cells@).take(0));
                        }
                        while j < r.cells.len()
                            invariant
                                0 <= j <= r.cells@.len(),
                                cells@.len() == j,
                                row_view(cells@) == md_row_cells(r.cells@).take(j as int),
                            decreases r.cells@.len() - j,
                        {
                            let rendered = render_rich_text_vec(&r.cells[j]);
                            cells.push(rendered);
                            proof {
                                assert(md_row_cells(r.cells@)[j as int] == md_rich_text_seq(
                                    r.cells@[j as int]@,
                                ));
                                assert(row_view(cells@) =~= md_row_cells(r.cells@).take(
                                    j as int + 1,
                                ));
                            }
                            j = j + 1;
                        }
                        proof {
                            assert(md_row_cells(r.cells@).take(r.cells@.len() as int)
                                =~= md_row_cells(r.cells@));
                        }
                        let ghost before_rows = rows_view(ts.rows@);
                        ts.rows.push(cells);
                        proof {
                            assert(rows_view(ts.rows@) =~= before_rows.push(
                                md_row_cells(r.cells@),
                            ));
                        }
                        table_state = Some(ts);
                    },
                }
            }
        } else if crate::strings::str_eq(b.block_type.as_str(), "file") {
            emit_file_like(&mut out, &mut blobs, b.file.as_ref(), b.id.as_str());
        } else if crate::strings::str_eq(b.block_type.as_str(), "pdf") {
            emit_file_like(&mut out, &mut blobs, b.pdf.as_ref(), b.id.as_str());
        } else if crate::strings::str_eq(b.block_type.as_str(), "video") {
            emit_file_like(&mut out, &mut blobs, b.video.as_ref(), b.id.as_str());
        } else if crate::strings::str_eq(b.block_type.as_str(), "audio") {
            emit_file_like(&mut out, &mut blobs, b.audio.as_ref(), b.id.as_str());
        } else if crate::strings::str_eq(b.block_type.as_str(), "embed") {
            if let Some(e) = &b.embed {
                out.append("[Embed](");
                out.append(e.url.as_str());
                out.append(")\n\n");
            }
        } else if crate::strings::str_eq(b.block_type.as_str(), "link_to_page") {
            if let Some(l) = &b.link_to_page {
                out.append("[Link] ");
                match &l.page_id {
                    Some(p) => out.append(p.as_str()),
                    None => match &l.database_id {
                        Some(d) => out.append(d.as_str()),
                        None => out.append("unknown"),
                    },
                }
                out.append("\n\n");
            }
        } else if is_children {
            out.append("\n");
        }

        let ghost st1 = md_emit(st0, blocks@[i as int]);
        proof {
            assert(out@ == st1.out);
            assert(blob_views(blobs@) == st1.blobs);
            assert(numbering as int == st1.numbering);
            assert(opt_table_view(table_state) == st1.table);
        }
        if !is_numbered {
            numbering = 1;
        }
        proof {
            assert(blocks@.take(i as int + 1).drop_last() =~= blocks@.take(i as int));
            assert(blocks@.take(i as int + 1).last() == blocks@[i as int]);
            assert(md_state(blocks@.take(i as int + 1)) == md_step(pre, blocks@[i as int]));
        }
        i = i + 1;
    }
    proof {
        assert(blocks@.take(blocks@.len() as int) =~= blocks@);
    }
    let final_table = table_state;
    flush_table(&mut out, final_table);
    (out, blobs)
}

} // verus!
