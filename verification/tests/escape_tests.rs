use dbview::escape::esc_html;
use dbview::text::usize_decimal;

#[test]
fn escape_leaves_plain_text_alone() {
    assert_eq!(esc_html("public"), "public");
    assert_eq!(esc_html(""), "");
}

#[test]
fn escape_replaces_all_five_specials() {
    assert_eq!(esc_html("<>&\"'"), "&lt;&gt;&amp;&quot;&#39;");
}

#[test]
fn escape_renders_obrien_value() {
    assert_eq!(esc_html("O'Brien & Co <x>"), "O&#39;Brien &amp; Co &lt;x&gt;");
}

#[test]
fn escape_keeps_unicode() {
    assert_eq!(esc_html("héllo <wörld>"), "héllo &lt;wörld&gt;");
}

#[test]
fn decimal_renders_exactly() {
    assert_eq!(usize_decimal(0), "0");
    assert_eq!(usize_decimal(7), "7");
    assert_eq!(usize_decimal(10), "10");
    assert_eq!(usize_decimal(1234567890), "1234567890");
}
