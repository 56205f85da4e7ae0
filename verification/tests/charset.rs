//! Character references and unusual characters in releases.

use discogs_xml_converter::parser::parse_release_from_bytes;

fn xml_escape(s: &str) -> String {
    let mut out = String::with_capacity(s.len());
    for c in s.chars() {
        match c {
            '&' => out.push_str("&amp;"),
            '<' => out.push_str("&lt;"),
            '>' => out.push_str("&gt;"),
            '"' => out.push_str("&quot;"),
            '\'' => out.push_str("&apos;"),
            _ => out.push(c),
        }
    }
    out
}

fn build_release_xml(title: &str) -> String {
    format!(
        r#"<?xml version="1.0" encoding="UTF-8"?>
<release id="1" status="Accepted">
  <artists><artist><id>1</id><name>Test</name><anv></anv><join></join><role></role><tracks></tracks></artist></artists>
  <title>{}</title>
  <country></country>
  <released></released>
  <notes></notes>
  <data_quality></data_quality>
  <formats><format name="CD" qty="1"></format></formats>
  <labels><label name="L" catno="C"/></labels>
  <genres></genres>
  <styles></styles>
  <tracklist></tracklist>
  <identifiers></identifiers>
  <videos></videos>
  <companies></companies>
  <extraartists></extraartists>
</release>"#,
        xml_escape(title)
    )
}

/// A title comes out as it went in, whatever its characters.
#[test]
fn corpus_xml_title_roundtrip() {
    let titles = [
        "Björk",
        "Nilüfer Yanya",
        "Csillagrablók",
        "Hermanos Gutiérrez",
        "Caf\u{0301}e",
        "e\u{0301}\u{0302}",
        "Ｆｕｌｌ Ｗｉｄｔｈ",
        "ザ・ピーナッツ",
        "서태지와 아이들",
        "崔健",
        "Кино",
        "Μίκης Θεοδωράκης",
        "أم كلثوم",
        "אריק איינשטיין",
        "ไทย",
        "Ωmega \u{2126}",
        "Straße",
        "ﬁ ligature",
        "“smart” ‘quotes’ – — …",
        "zero\u{200b}width\u{200d}joiner",
        "right\u{200f}to\u{202e}left",
        "no\u{00a0}break",
        "\u{1f3b5} music \u{1f469}\u{200d}\u{1f3a4}",
        "\u{10ffff}",
        "\u{fffd}",
        "Sun & Steel <mix> \"live\" o'clock",
        "a & b && c &amp; d",
        "tab\tand\nline",
        " leading and trailing ",
        "",
    ];
    for title in titles {
        let xml = build_release_xml(title);
        let release = parse_release_from_bytes(xml.as_bytes()).unwrap();
        assert_eq!(release.title, title);
    }
}

/// References are resolved once, in texts and in attributes.
#[test]
fn entity_references_decode_exactly_once() {
    let xml = r#"<?xml version="1.0" encoding="UTF-8"?>
<release id="42" status="Accepted">
  <artists><artist><id>1</id><name>Test</name><anv></anv><join></join><role></role><tracks></tracks></artist></artists>
  <title>Sun &amp; Steel &lt;mix&gt; &quot;live&quot; o&apos;clock</title>
  <country></country>
  <released></released>
  <notes>R&#38;B &amp; soul</notes>
  <data_quality></data_quality>
  <formats><format name="7&quot; &amp; 12&quot; &lt;reissue&gt;" qty="1"></format></formats>
  <labels><label name="L" catno="C"/></labels>
  <genres></genres>
  <styles></styles>
  <tracklist></tracklist>
  <identifiers></identifiers>
  <videos></videos>
  <companies></companies>
  <extraartists></extraartists>
</release>"#;

    let release = parse_release_from_bytes(xml.as_bytes()).expect("parses");

    assert_eq!(release.title, r#"Sun & Steel <mix> "live" o'clock"#);
    assert_eq!(release.notes, "R&B & soul");
    assert_eq!(release.formats.len(), 1);
    assert_eq!(release.formats[0].name, r#"7" & 12" <reissue>"#);

    let xml = "<release id=\"1\"><title>&amp;lt;</title><notes>&amp;amp;</notes></release>";
    let release = parse_release_from_bytes(xml.as_bytes()).expect("parses");
    assert_eq!(release.title, "&lt;");
    assert_eq!(release.notes, "&amp;");
}

/// White space in an attribute stays as it is.
#[test]
fn attribute_whitespace_is_not_normalized() {
    let xml = "<?xml version=\"1.0\" encoding=\"UTF-8\"?>\n\
<release id=\"7\" status=\"Accepted\">\n\
  <artists><artist><id>1</id><name>Test</name><anv></anv><join></join><role></role><tracks></tracks></artist></artists>\n\
  <title>t</title>\n\
  <country></country><released></released><notes></notes><data_quality></data_quality>\n\
  <formats><format name=\"a&#9;b&#10;c\" qty=\"1\"></format></formats>\n\
  <labels></labels><genres></genres><styles></styles><tracklist></tracklist>\n\
  <identifiers></identifiers><videos></videos><companies></companies><extraartists></extraartists>\n\
</release>";

    let release = parse_release_from_bytes(xml.as_bytes()).expect("parses");
    assert_eq!(release.formats.len(), 1);
    assert_eq!(release.formats[0].name, "a\tb\nc");

    let xml = "<release id=\"7\"><formats><format name=\"a\tb\nc  d\" qty=\"1\"/></formats></release>";
    let release = parse_release_from_bytes(xml.as_bytes()).expect("parses");
    assert_eq!(release.formats[0].name, "a\tb\nc  d");
}
