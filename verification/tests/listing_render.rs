use staticserve::encoding::{html_escape_str, url_encode_str};
use staticserve::listing::{render_listing, ListingEntry};

fn entry(name: &str, is_dir: bool, visible: bool) -> ListingEntry {
    ListingEntry { name: name.to_string(), is_dir, visible }
}

#[test]
fn renders_file_and_directory_entries() {
    let entries = vec![entry("My Report.pdf", false, true), entry("2024", true, true)];
    let html = render_listing("/files", &entries);
    assert!(html.contains(
        "<li class=\"file\"><a href=\"/files/My%20Report.pdf\">My Report.pdf</a></li>"
    ));
    assert!(html.contains("<li class=\"dir\"><a href=\"/files/2024/\">2024/</a></li>"));
}

#[test]
fn skips_invisible_entries() {
    let entries = vec![entry(".hidden", false, false), entry("shown.txt", false, true)];
    let html = render_listing("/files", &entries);
    assert!(!html.contains(".hidden"));
    assert!(html.contains("shown.txt"));
}

#[test]
fn document_is_self_contained() {
    let entries = vec![entry("a.txt", false, true)];
    let html = render_listing("/files", &entries);
    assert!(html.starts_with("<html>"));
    assert!(html.ends_with("</ul></body></html>"));
    assert!(html.contains("<h1>Index of /files</h1>"));
    assert!(html.contains("javascript:history.back()"));
    assert!(html.contains("<style>"));
}

#[test]
fn heading_escapes_the_url_path() {
    let entries: Vec<ListingEntry> = vec![];
    let html = render_listing("/a<b", &entries);
    assert!(html.contains("<h1>Index of /a&lt;b</h1>"));
}

#[test]
fn percent_encodes_unsafe_characters() {
    assert_eq!(url_encode_str("My Report.pdf"), "My%20Report.pdf");
    assert_eq!(url_encode_str("a%b"), "a%25b");
    assert_eq!(url_encode_str("q?x#y"), "q%3Fx%23y");
    assert_eq!(url_encode_str("<\">"), "%3C%22%3E");
    assert_eq!(url_encode_str("\u{1}"), "%01");
    assert_eq!(url_encode_str("\u{7f}"), "%7F");
    assert_eq!(url_encode_str("plain-name_1.txt"), "plain-name_1.txt");
}

#[test]
fn html_escapes_labels() {
    assert_eq!(html_escape_str("a<b>&c"), "a&lt;b&gt;&amp;c");
    assert_eq!(html_escape_str("\"x\" 'y'"), "&quot;x&quot; &#x27;y&#x27;");
    assert_eq!(html_escape_str("plain"), "plain");
}

fn percent_decode(s: &str) -> String {
    let chars: Vec<char> = s.chars().collect();
    let mut out = String::new();
    let mut i: usize = 0;
    while i < chars.len() {
        if chars[i] == '%' {
            let hi = chars.get(i + 1).and_then(|c| c.to_digit(16));
            let lo = chars.get(i + 2).and_then(|c| c.to_digit(16));
            if let (Some(hi), Some(lo)) = (hi, lo) {
                out.push(char::from_u32(hi * 16 + lo).unwrap());
                i += 3;
                continue;
            }
        }
        out.push(chars[i]);
        i += 1;
    }
    out
}

fn html_unescape(s: &str) -> String {
    s.replace("&lt;", "<")
        .replace("&gt;", ">")
        .replace("&quot;", "\"")
        .replace("&#x27;", "'")
        .replace("&amp;", "&")
}

#[test]
fn both_encodings_round_trip_on_concrete_names() {
    for name in ["My Report.pdf", "a%b&c", "<tag> \"q\" 'a'", "2024", "x?y#z"] {
        assert_eq!(percent_decode(&url_encode_str(name)), name);
        assert_eq!(html_unescape(&html_escape_str(name)), name);
    }
}
