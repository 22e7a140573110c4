use bdf::BoundingBox;
use bdf::Font;
use bdf::Glyph;
use bdf::Property;
use bdf::Size;

fn glyph(name: &str, codepoint: char) -> Glyph {
    Glyph {
        name: String::from(name),
        codepoint,
    }
}

#[test]
fn new_font_starts_with_defaults() {
    let font = Font::new(String::from("myfont"), None);
    assert_eq!(font.format(), "2.2");
    assert_eq!(font.name(), "myfont");
    assert_eq!(font.version(), None);
    assert_eq!(*font.size(), Size { pt: 0, x: 0, y: 0 });
    assert_eq!(font.len(), 0);
    assert_eq!(font.bounds(), None);
    assert!(font.comments().is_empty());
    assert!(font.properties().is_empty());
    assert!(font.glyphs().is_empty());
}

#[test]
fn new_font_keeps_its_version() {
    let font = Font::new(String::from("myfont"), Some(String::from("1.0")));
    assert_eq!(font.version(), Some("1.0"));
}

#[test]
fn default_font_has_placeholder_name() {
    let font = Font::default();
    assert_eq!(font.name(), "--------------");
    assert_eq!(font.format(), "2.2");
    assert_eq!(font.version(), None);
}

#[test]
fn scalar_fields_read_back_what_was_set() {
    let mut font = Font::default();

    font.set_format(String::from("2.1"));
    assert_eq!(font.format(), "2.1");

    font.set_name(String::from("terminus"));
    assert_eq!(font.name(), "terminus");

    font.set_version(Some(String::from("7")));
    assert_eq!(font.version(), Some("7"));
    font.set_version(None);
    assert_eq!(font.version(), None);

    font.set_size(Size { pt: 16, x: 75, y: 75 });
    assert_eq!(*font.size(), Size { pt: 16, x: 75, y: 75 });

    font.set_len(191);
    assert_eq!(font.len(), 191);
    font.set_len(usize::MAX);
    assert_eq!(font.len(), usize::MAX);
    font.set_len(0);
    assert_eq!(font.len(), 0);

    font.set_size(Size {
        pt: u16::MAX,
        x: u16::MAX,
        y: u16::MAX,
    });
    assert_eq!(
        *font.size(),
        Size {
            pt: u16::MAX,
            x: u16::MAX,
            y: u16::MAX
        }
    );

    let bounds = BoundingBox {
        width: 8,
        height: 16,
        x: 0,
        y: -4,
    };
    font.set_bounds(Some(bounds));
    assert_eq!(font.bounds(), Some(&bounds));
    font.set_bounds(None);
    assert_eq!(font.bounds(), None);
}

#[test]
fn declared_length_is_not_checked_against_glyphs() {
    let mut font = Font::default();
    font.set_len(100);
    assert_eq!(font.len(), 100);
    assert!(font.glyphs().is_empty());
}

#[test]
fn comments_keep_order_and_duplicates() {
    let mut font = Font::default();
    font.push_comment(String::from("first"));
    font.push_comment(String::from("second"));
    font.push_comment(String::from("first"));
    assert_eq!(
        font.comments(),
        &vec![
            String::from("first"),
            String::from("second"),
            String::from("first")
        ]
    );

    font.set_comments(vec![String::from("only")]);
    assert_eq!(font.comments(), &vec![String::from("only")]);
}

#[test]
fn inserted_property_is_the_only_new_entry() {
    let mut font = Font::default();
    font.insert_property(String::from("FOUNDRY"), Property::StringValue(String::from("misc")));

    font.insert_property(String::from("PIXEL_SIZE"), Property::IntegerValue(10));

    assert_eq!(font.properties().len(), 2);
    assert_eq!(
        font.property("PIXEL_SIZE"),
        Some(&Property::IntegerValue(10))
    );
    assert_eq!(
        font.property("FOUNDRY"),
        Some(&Property::StringValue(String::from("misc")))
    );
    assert_eq!(font.property("WEIGHT"), None);
}

#[test]
fn inserting_a_property_again_replaces_its_value() {
    let mut font = Font::default();
    font.insert_property(String::from("PIXEL_SIZE"), Property::IntegerValue(10));
    font.insert_property(String::from("PIXEL_SIZE"), Property::IntegerValue(12));
    assert_eq!(font.properties().len(), 1);
    assert_eq!(
        font.property("PIXEL_SIZE"),
        Some(&Property::IntegerValue(12))
    );
}

#[test]
fn removing_a_property_returns_it() {
    let mut font = Font::default();
    font.insert_property(String::from("PIXEL_SIZE"), Property::IntegerValue(10));
    assert_eq!(
        font.remove_property("PIXEL_SIZE"),
        Some(Property::IntegerValue(10))
    );
    assert_eq!(font.remove_property("PIXEL_SIZE"), None);
    assert!(font.properties().is_empty());
}

#[test]
fn properties_can_be_replaced_wholesale() {
    let mut font = Font::default();
    font.insert_property(String::from("OLD"), Property::IntegerValue(1));
    font.set_properties(vec![
        (String::from("A"), Property::IntegerValue(2)),
        (String::from("B"), Property::StringValue(String::from("b"))),
    ]);
    assert_eq!(font.properties().len(), 2);
    assert_eq!(font.property("OLD"), None);
    assert_eq!(font.property("A"), Some(&Property::IntegerValue(2)));
}

#[test]
fn glyphs_are_stored_per_character() {
    let mut font = Font::default();
    font.insert_glyph('A', glyph("LATIN CAPITAL LETTER A", 'A'));
    font.insert_glyph('B', glyph("LATIN CAPITAL LETTER B", 'B'));

    assert_eq!(font.glyphs().len(), 2);
    assert_eq!(font.glyph('A'), Some(&glyph("LATIN CAPITAL LETTER A", 'A')));
    assert_eq!(font.glyph('C'), None);
}

#[test]
fn inserting_a_glyph_again_replaces_it() {
    let mut font = Font::default();
    font.insert_glyph('A', glyph("first", 'A'));
    font.insert_glyph('A', glyph("second", 'A'));
    assert_eq!(font.glyphs().len(), 1);
    assert_eq!(font.glyph('A'), Some(&glyph("second", 'A')));
}

#[test]
fn removing_a_glyph_returns_it() {
    let mut font = Font::default();
    font.insert_glyph('A', glyph("first", 'A'));
    assert_eq!(font.remove_glyph('A'), Some(glyph("first", 'A')));
    assert_eq!(font.remove_glyph('A'), None);
    assert!(font.glyphs().is_empty());
}

#[test]
fn glyphs_can_be_replaced_wholesale() {
    let mut font = Font::default();
    font.insert_glyph('A', glyph("first", 'A'));
    font.set_glyphs(vec![('B', glyph("second", 'B'))]);
    assert_eq!(font.glyphs().len(), 1);
    assert_eq!(font.glyph('A'), None);
    assert_eq!(font.glyph('B'), Some(&glyph("second", 'B')));
}

#[test]
fn parsed_properties_land_in_the_table() {
    let mut font = Font::new(String::from("myfont"), None);
    font.insert_property(String::from("COPYRIGHT"), Property::parse("\"(c) 2001\""));
    font.insert_property(String::from("PIXEL_SIZE"), Property::parse("10"));
    assert_eq!(
        font.property("COPYRIGHT"),
        Some(&Property::StringValue(String::from("(c) 2001")))
    );
    assert_eq!(
        font.property("PIXEL_SIZE"),
        Some(&Property::IntegerValue(10))
    );
}
