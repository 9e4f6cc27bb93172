//! Rendering a directory's contents as a self-contained HTML document:
//! a heading with the current URL path, a go-back link, and one list item
//! per visible entry.  Each entry's link target and visible label are
//! encoded independently from the raw name.

use vstd::prelude::*;

use crate::encoding::{html_escape, html_escape_str, url_encode, url_encode_str};
use crate::paths::{join, join_seq};

verus! {

/// A directory child as handed to the renderer: its raw name, whether it
/// is a directory, and the verdict of the external visibility policy.
pub struct ListingEntry {
    pub name: String,
    pub is_dir: bool,
    pub visible: bool,
}

/// The spec-level image of a [`ListingEntry`].
pub struct EntryView {
    pub name: Seq<char>,
    pub is_dir: bool,
    pub visible: bool,
}

impl View for ListingEntry {
    type V = EntryView;

    open spec fn view(&self) -> EntryView {
        EntryView { name: self.name@, is_dir: self.is_dir, visible: self.visible }
    }
}

pub open spec fn entry_views(es: Seq<ListingEntry>) -> Seq<EntryView> {
    es.map_values(|e: ListingEntry| e@)
}

/// One list item.  The link target percent-encodes the URL path joined
/// with the raw name; the label HTML-escapes the raw name.  A directory
/// gets `/` appended to both, a file to neither.
pub open spec fn item_html(base: Seq<char>, e: EntryView) -> Seq<char> {
    if e.is_dir {
        "<li class=\"dir\"><a href=\""@ + url_encode(join_seq(base, e.name)) + "/\">"@
            + html_escape(e.name) + "/</a></li>"@
    } else {
        "<li class=\"file\"><a href=\""@ + url_encode(join_seq(base, e.name)) + "\">"@
            + html_escape(e.name) + "</a></li>"@
    }
}

/// The list items of the visible entries, in their given order; an entry
/// the visibility policy marked invisible contributes nothing.
pub open spec fn items_html(base: Seq<char>, es: Seq<EntryView>) -> Seq<char>
    decreases es.len(),
{
    if es.len() == 0 {
        Seq::empty()
    } else {
        items_html(base, es.drop_last()) + (if es.last().visible {
            item_html(base, es.last())
        } else {
            Seq::empty()
        })
    }
}

/// Everything before the list items: the document head, the inline
/// style, the heading with the current URL path, and the go-back link.
pub open spec fn doc_head(base: Seq<char>) -> Seq<char> {
    "<html><head><title>Index of "@ + html_escape(base)
        + "</title></head><body><style>body{background-color:#202124;font-family:monospace;color:#aaa}h1{color:#93b5f6}a{color:#93b5f6}li{margin:4px 0}</style><h1>Index of "@
        + html_escape(base) + "</h1><ul><li><a href=\"javascript:history.back()\">Go back</a></li>"@
}

pub open spec fn doc_tail() -> Seq<char> {
    "</ul></body></html>"@
}

/// The whole rendered document.
pub open spec fn render_spec(base: Seq<char>, es: Seq<EntryView>) -> Seq<char> {
    doc_head(base) + items_html(base, es) + doc_tail()
}

/// Render the listing of the directory whose children are `entries`, as
/// seen under the URL path `base`.
pub fn render_listing(base: &str, entries: &Vec<ListingEntry>) -> (html: String)
    ensures
        html@ == render_spec(base@, entry_views(entries@)),
{
    let esc_base = html_escape_str(base);
    let mut html = String::new();
    html.append("<html><head><title>Index of ");
    html.append(esc_base.as_str());
    html.append(
        "</title></head><body><style>body{background-color:#202124;font-family:monospace;color:#aaa}h1{color:#93b5f6}a{color:#93b5f6}li{margin:4px 0}</style><h1>Index of ",
    );
    html.append(esc_base.as_str());
    html.append("</h1><ul><li><a href=\"javascript:history.back()\">Go back</a></li>");
    proof {
        assert(html@ =~= doc_head(base@));
    }
    let n: usize = entries.len();
    let mut i: usize = 0;
    while i < n
        invariant
            n == entries@.len(),
            0 <= i <= n,
            html@ == doc_head(base@) + items_html(base@, entry_views(entries@).take(i as int)),
        decreases n - i,
    {
        let e = &entries[i];
        if e.visible {
            let joined = join(base, e.name.as_str());
            let href = url_encode_str(joined.as_str());
            let label = html_escape_str(e.name.as_str());
            if e.is_dir {
                html.append("<li class=\"dir\"><a href=\"");
                html.append(href.as_str());
                html.append("/\">");
                html.append(label.as_str());
                html.append("/</a></li>");
            } else {
                html.append("<li class=\"file\"><a href=\"");
                html.append(href.as_str());
                html.append("\">");
                html.append(label.as_str());
                html.append("</a></li>");
            }
        }
        proof {
            let views = entry_views(entries@);
            assert(views.take(i as int + 1).drop_last() =~= views.take(i as int));
            assert(views.take(i as int + 1).last() == entries@[i as int]@);
            assert(html@ =~= doc_head(base@) + items_html(base@, views.take(i as int + 1)));
        }
        i = i + 1;
    }
    html.append("</ul></body></html>");
    proof {
        assert(entry_views(entries@).take(n as int) =~= entry_views(entries@));
        assert(html@ =~= render_spec(base@, entry_views(entries@)));
    }
    html
}

} // verus!
