use rreader::html::{strip_html_tags, truncate_bytes};

#[test]
fn tags_are_removed() {
    assert_eq!(strip_html_tags("<b>bold</b> text"), "bold text");
}

#[test]
fn block_tags_insert_line_breaks() {
    assert_eq!(strip_html_tags("<p>Hello</p>"), "\nHello\n");
    assert_eq!(strip_html_tags("<div>A</div><br>B"), "\nA\n\nB");
    assert_eq!(strip_html_tags("<li>one</li>"), "\none\n");
}

#[test]
fn tag_names_match_case_insensitively() {
    assert_eq!(strip_html_tags("<P>x</P>"), "\nx\n");
    assert_eq!(strip_html_tags("<BR>y"), "\ny");
}

#[test]
fn script_and_style_content_is_dropped() {
    assert_eq!(strip_html_tags("a<script>alert(1)</script>b"), "ab");
    assert_eq!(strip_html_tags("a<style>.x{color:red}</style>b"), "ab");
    assert_eq!(strip_html_tags("a<SCRIPT>bad</SCRIPT>b"), "ab");
}

#[test]
fn tag_attributes_are_ignored() {
    assert_eq!(strip_html_tags("<a href=\"http://x\">link</a>"), "link");
    assert_eq!(strip_html_tags("<div class=\"c\">in</div>"), "\nin\n");
}

#[test]
fn entity_whitelist_is_decoded() {
    assert_eq!(strip_html_tags("x &amp; y"), "x & y");
    assert_eq!(strip_html_tags("&lt;tag&gt;"), "<tag>");
    assert_eq!(strip_html_tags("&quot;q&quot; &#39;a&#39; &apos;b&apos; &#x27;c&#x27;"), "\"q\" 'a' 'b' 'c'");
    assert_eq!(strip_html_tags("a&nbsp;b&#160;c"), "a b c");
}

#[test]
fn unknown_entities_stay() {
    assert_eq!(strip_html_tags("&copy;"), "&copy;");
}

#[test]
fn byte_budget_cuts_at_character_boundaries() {
    // Each of these glyphs takes three UTF-8 bytes.
    assert_eq!(truncate_bytes("안녕하세요", 7), "안녕");
    assert_eq!(truncate_bytes("안녕하세요", 9), "안녕하");
    assert_eq!(truncate_bytes("abc", 2), "ab");
    assert_eq!(truncate_bytes("abc", 10), "abc");
    assert_eq!(truncate_bytes("", 5), "");
}
