use instant_karma::dict::{put_dict, Dict};
use instant_karma::key::Key;
use instant_karma::pages::{copy_page, fill_render_template, index_page, render_page};

#[test]
fn copy_page_fills_path_then_escaped_text() {
    let p = copy_page("<h1>{path}</h1><pre>{}</pre>", "a.txt", Some("x < y && z > w".to_string()));
    assert_eq!(p.status, 200);
    assert_eq!(p.body, "<h1>a.txt</h1><pre>x &lt; y &amp;&amp; z &gt; w</pre>");
}

#[test]
fn copy_page_escapes_as_html_escape_does() {
    let text = "<script>alert('x')</script> & \"q\" ü";
    let p = copy_page("{}", "", Some(text.to_string()));
    assert_eq!(p.body, html_escape::encode_text(text));
}

#[test]
fn copy_page_without_text_is_not_found() {
    let p = copy_page("{path} {}", "a", None);
    assert_eq!(p.status, 404);
    assert_eq!(p.body, "");
}

#[test]
fn copy_page_path_holding_a_slot_is_filled_too() {
    let p = copy_page("[{path}]", "{}", Some("t".to_string()));
    assert_eq!(p.body, "[t]");
}

#[test]
fn render_page_renders_markdown_of_the_stored_text() {
    let mut d = Dict::new();
    put_dict(&mut d, &Key::from("k1"), "# Title\n\n~~gone~~");
    let p = render_page(&d, "{id}|{path}|{}", "k1", "notes.md");
    assert_eq!(p.status, 200);
    assert_eq!(p.body, "k1|notes.md|<h1>Title</h1>\n<p><del>gone</del></p>\n");
}

#[test]
fn render_page_for_unknown_key_is_not_found() {
    let mut d = Dict::new();
    put_dict(&mut d, &Key::from("k1"), "x");
    let p = render_page(&d, "{}", "k2", "p");
    assert_eq!(p.status, 404);
    assert_eq!(p.body, "");
}

#[test]
fn fill_render_template_order_is_id_path_content() {
    assert_eq!(fill_render_template("{id}/{path}/{}", "K", "{}", "H"), "K/H/H");
    assert_eq!(fill_render_template("{}{id}", "{path}", "P", "C"), "CP");
}

#[test]
fn index_page_fills_title_and_list() {
    assert_eq!(index_page("<title>{title}</title><ul>{}</ul>", "/k/", "<li>x</li>"), "<title>/k/</title><ul><li>x</li></ul>");
}
