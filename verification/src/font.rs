//! The font aggregate: identity, format and content version, physical size,
//! declared glyph count, default bounding box, comments, named properties,
//! and the per-character glyph table, with invariant-preserving mutators.

use vstd::prelude::*;
use vstd::string::StrSliceExecFns;

use crate::property::Property;
use crate::property::PropertyView;
use crate::table::distinct_keys;
use crate::table::lemma_table_map_at;
use crate::table::lemma_table_map_domain;
use crate::table::lemma_table_map_push;
use crate::table::lemma_table_map_remove;
use crate::table::table_map;

verus! {

/// Physical size of a font: point size and resolution.
#[derive(PartialEq, Eq, Structural, Clone, Copy, Debug)]
pub struct Size {
    /// Point size of the font.
    pub pt: u16,
    /// X-axis DPI.
    pub x: u16,
    /// Y-axis DPI.
    pub y: u16,
}

impl Default for Size {
    /// The all-zero size.
    fn default() -> (s: Size)
        ensures
            s == (Size { pt: 0, x: 0, y: 0 }),
    {
        Size { pt: 0, x: 0, y: 0 }
    }
}

/// Default glyph extent metadata. The model stores and returns it without
/// reading into it; it only needs to be a comparable value.
#[derive(PartialEq, Eq, Structural, Clone, Copy, Debug)]
pub struct BoundingBox {
    /// Width in pixels.
    pub width: u32,
    /// Height in pixels.
    pub height: u32,
    /// X displacement of the lower-left corner.
    pub x: i32,
    /// Y displacement of the lower-left corner.
    pub y: i32,
}

/// A per-character glyph descriptor. The model stores one per character and
/// never reads into it; it only needs to be an owned, comparable value.
#[derive(PartialEq, Eq, Clone, Debug)]
pub struct Glyph {
    /// The glyph's declared name.
    pub name: String,
    /// The character the glyph renders.
    pub codepoint: char,
}

/// The mathematical value of a `Glyph`.
#[verifier::ext_equal]
pub struct GlyphView {
    pub name: Seq<char>,
    pub codepoint: char,
}

impl View for Glyph {
    type V = GlyphView;

    open spec fn view(&self) -> GlyphView {
        GlyphView { name: self.name@, codepoint: self.codepoint }
    }
}

/// The mathematical value of a `Font`: every field as a plain mathematical
/// object, with the two tables as maps.
#[verifier::ext_equal]
pub struct FontView {
    pub format: Seq<char>,
    pub name: Seq<char>,
    pub version: Option<Seq<char>>,
    pub size: Size,
    pub len: int,
    pub bounds: Option<BoundingBox>,
    pub comments: Seq<Seq<char>>,
    pub properties: Map<Seq<char>, PropertyView>,
    pub glyphs: Map<char, GlyphView>,
}

/// The view of an optional string.
pub open spec fn option_string_view(v: Option<String>) -> Option<Seq<char>> {
    match v {
        Some(s) => Some(s@),
        None => None,
    }
}

/// The baseline format identifier a font starts with.
pub open spec fn default_format() -> Seq<char> {
    "2.2"@
}

/// The placeholder name of a default-constructed font.
pub open spec fn default_name() -> Seq<char> {
    "--------------"@
}

/// A BDF font: all font-level state of one font description.
#[derive(Debug)]
pub struct Font {
    format: String,
    name: String,
    version: Option<String>,
    size: Size,
    len: usize,
    bounds: Option<BoundingBox>,
    comments: Vec<String>,
    properties: Vec<(String, Property)>,
    glyphs: Vec<(char, Glyph)>,
}

impl View for Font {
    type V = FontView;

    closed spec fn view(&self) -> FontView {
        FontView {
            format: self.format@,
            name: self.name@,
            version: option_string_view(self.version),
            size: self.size,
            len: self.len as int,
            bounds: self.bounds,
            comments: self.comments.deep_view(),
            properties: table_map(self.properties@),
            glyphs: table_map(self.glyphs@),
        }
    }
}

/// The view of a freshly constructed font carrying `name` and `version`:
/// every other field holds its default.
pub open spec fn fresh_font_view(name: Seq<char>, version: Option<Seq<char>>) -> FontView {
    FontView {
        format: default_format(),
        name: name,
        version: version,
        size: Size { pt: 0, x: 0, y: 0 },
        len: 0,
        bounds: None,
        comments: Seq::empty(),
        properties: Map::empty(),
        glyphs: Map::empty(),
    }
}

/// Compare two string slices character by character.
fn str_eq(a: &str, b: &str) -> (r: bool)
    ensures
        r == (a@ == b@),
{
    let n = a.unicode_len();
    if n != b.unicode_len() {
        return false;
    }
    let mut i: usize = 0;
    while i < n
        invariant
            i <= n,
            n == a@.len(),
            n == b@.len(),
            forall|j: int| 0 <= j < i ==> a@[j] == b@[j],
        decreases n - i,
    {
        if a.get_char(i) != b.get_char(i) {
            return false;
        }
        i = i + 1;
    }
    proof {
        assert(a@ =~= b@);
    }
    true
}

/// Find the entry carrying a string key.
fn find_key_string(entries: &Vec<(String, Property)>, name: &str) -> (r: Option<usize>)
    ensures
        match r {
            Some(i) => i < entries@.len() && entries@[i as int].0@ == name@,
            None => forall|j: int|
                0 <= j < entries@.len() ==> (#[trigger] entries@[j]).0@ != name@,
        },
{
    let mut i: usize = 0;
    while i < entries.len()
        invariant
            i <= entries@.len(),
            forall|j: int| 0 <= j < i ==> (#[trigger] entries@[j]).0@ != name@,
        decreases entries@.len() - i,
    {
        if str_eq(entries[i].0.as_str(), name) {
            return Some(i);
        }
        i = i + 1;
    }
    None
}

/// Find the entry carrying a character key.
fn find_key_char(entries: &Vec<(char, Glyph)>, c: char) -> (r: Option<usize>)
    ensures
        match r {
            Some(i) => i < entries@.len() && entries@[i as int].0 == c,
            None => forall|j: int| 0 <= j < entries@.len() ==> (#[trigger] entries@[j]).0 != c,
        },
{
    let mut i: usize = 0;
    while i < entries.len()
        invariant
            i <= entries@.len(),
            forall|j: int| 0 <= j < i ==> (#[trigger] entries@[j]).0 != c,
        decreases entries@.len() - i,
    {
        if entries[i].0 == c {
            return Some(i);
        }
        i = i + 1;
    }
    None
}

impl Default for Font {
    /// A font with the baseline format, the placeholder name, and every
    /// other field at its default.
    fn default() -> (f: Font)
        ensures
            f@ == fresh_font_view(default_name(), None),
            f.well_formed(),
    {
        let f = Font {
            format: "2.2".to_owned(),
            name: "--------------".to_owned(),
            version: None,
            size: Size { pt: 0, x: 0, y: 0 },
            len: 0,
            bounds: None,
            comments: Vec::new(),
            properties: Vec::new(),
            glyphs: Vec::new(),
        };
        proof {
            assert(f.comments.deep_view() =~= Seq::<Seq<char>>::empty());
            assert(f@ =~= fresh_font_view(default_name(), None));
        }
        f
    }
}

impl Font {
    /// Both tables hold at most one entry per key.
    pub closed spec fn well_formed(&self) -> bool {
        distinct_keys(self.properties@) && distinct_keys(self.glyphs@)
    }

    /// Create a new font with the given name and content-version; every
    /// other field starts at its default.
    pub fn new(name: String, version: Option<String>) -> (f: Font)
        ensures
            f@ == fresh_font_view(name@, option_string_view(version)),
            f.well_formed(),
    {
        let mut f = Font::default();
        f.name = name;
        f.version = version;
        proof {
            assert(f@ =~= fresh_font_view(f.name@, option_string_view(f.version)));
        }
        f
    }

    /// Gets the BDF format version.
    pub fn format(&self) -> (r: &str)
        ensures
            r@ == self@.format,
    {
        self.format.as_str()
    }

    /// Sets the BDF format version.
    pub fn set_format(&mut self, format: String)
        ensures
            final(self)@ == (FontView { format: format@, ..old(self)@ }),
            final(self).well_formed() == old(self).well_formed(),
    {
        self.format = format;
        proof {
            assert(self@ =~= (FontView { format: self.format@, ..old(self)@ }));
        }
    }

    /// Gets the name.
    pub fn name(&self) -> (r: &str)
        ensures
            r@ == self@.name,
    {
        self.name.as_str()
    }

    /// Sets the name.
    pub fn set_name(&mut self, name: String)
        ensures
            final(self)@ == (FontView { name: name@, ..old(self)@ }),
            final(self).well_formed() == old(self).well_formed(),
    {
        self.name = name;
        proof {
            assert(self@ =~= (FontView { name: self.name@, ..old(self)@ }));
        }
    }

    /// Gets the content-version.
    pub fn version(&self) -> (r: Option<&str>)
        ensures
            match r {
                Some(v) => self@.version == Some(v@),
                None => self@.version is None,
            },
    {
        match &self.version {
            Some(v) => Some(v.as_str()),
            None => None,
        }
    }

    /// Sets the content-version.
    pub fn set_version(&mut self, version: Option<String>)
        ensures
            final(self)@ == (FontView { version: option_string_view(version), ..old(self)@ }),
            final(self).well_formed() == old(self).well_formed(),
    {
        self.version = version;
        proof {
            assert(self@ =~= (FontView { version: option_string_view(self.version), ..old(self)@ }));
        }
    }

    /// Gets the size.
    pub fn size(&self) -> (r: &Size)
        ensures
            *r == self@.size,
    {
        &self.size
    }

    /// Sets the size.
    pub fn set_size(&mut self, size: Size)
        ensures
            final(self)@ == (FontView { size: size, ..old(self)@ }),
            final(self).well_formed() == old(self).well_formed(),
    {
        self.size = size;
        proof {
            assert(self@ =~= (FontView { size: self.size, ..old(self)@ }));
        }
    }

    /// Gets the declared number of glyphs. The model does not enforce that
    /// it equals the size of the glyph table.
    pub fn len(&self) -> (r: usize)
        ensures
            r as int == self@.len,
    {
        self.len
    }

    /// Sets the declared number of glyphs, without checking it against the
    /// glyph table.
    pub fn set_len(&mut self, len: usize)
        ensures
            final(self)@ == (FontView { len: len as int, ..old(self)@ }),
            final(self).well_formed() == old(self).well_formed(),
    {
        self.len = len;
        proof {
            assert(self@ =~= (FontView { len: self.len as int, ..old(self)@ }));
        }
    }

    /// Gets the default bounding box.
    pub fn bounds(&self) -> (r: Option<&BoundingBox>)
        ensures
            match r {
                Some(b) => self@.bounds == Some(*b),
                None => self@.bounds is None,
            },
    {
        match &self.bounds {
            Some(b) => Some(b),
            None => None,
        }
    }

    /// Sets the default bounding box.
    pub fn set_bounds(&mut self, bounds: Option<BoundingBox>)
        ensures
            final(self)@ == (FontView { bounds: bounds, ..old(self)@ }),
            final(self).well_formed() == old(self).well_formed(),
    {
        self.bounds = bounds;
        proof {
            assert(self@ =~= (FontView { bounds: self.bounds, ..old(self)@ }));
        }
    }

    /// Gets the comments.
    pub fn comments(&self) -> (r: &Vec<String>)
        ensures
            r.deep_view() == self@.comments,
    {
        &self.comments
    }

    /// Appends one comment.
    pub fn push_comment(&mut self, comment: String)
        ensures
            final(self)@ == (FontView { comments: old(self)@.comments.push(comment@), ..old(self)@ }),
            final(self).well_formed() == old(self).well_formed(),
    {
        let ghost target = old(self)@.comments.push(comment@);
        self.comments.push(comment);
        proof {
            assert(self.comments.deep_view() =~= target);
            assert(self@ =~= (FontView { comments: target, ..old(self)@ }));
        }
    }

    /// Replaces the comments wholesale.
    pub fn set_comments(&mut self, comments: Vec<String>)
        ensures
            final(self)@ == (FontView { comments: comments.deep_view(), ..old(self)@ }),
            final(self).well_formed() == old(self).well_formed(),
    {
        self.comments = comments;
        proof {
            assert(self@ =~= (FontView { comments: self.comments.deep_view(), ..old(self)@ }));
        }
    }

    /// Gets the property table, one entry per property name.
    pub fn properties(&self) -> (r: &Vec<(String, Property)>)
        ensures
            table_map(r@) == self@.properties,
            self.well_formed() ==> distinct_keys(r@),
    {
        &self.properties
    }

    /// Looks one property up by name.
    pub fn property(&self, name: &str) -> (r: Option<&Property>)
        requires
            self.well_formed(),
        ensures
            match r {
                Some(p) => self@.properties.contains_key(name@) && p@ == self@.properties[name@],
                None => !self@.properties.contains_key(name@),
            },
    {
        proof {
            lemma_table_map_domain::<String, Property>(self.properties@, name@);
        }
        match find_key_string(&self.properties, name) {
            Some(i) => {
                proof {
                    lemma_table_map_at::<String, Property>(self.properties@, i as int);
                }
                Some(&self.properties[i].1)
            },
            None => None,
        }
    }

    /// Inserts a property under a name, replacing any property that name
    /// already carried.
    pub fn insert_property(&mut self, name: String, value: Property)
        requires
            old(self).well_formed(),
        ensures
            final(self).well_formed(),
            final(self)@ == (FontView {
                properties: old(self)@.properties.insert(name@, value@),
                ..old(self)@
            }),
    {
        let ghost pre = self.properties@;
        match find_key_string(&self.properties, name.as_str()) {
            Some(i) => {
                proof {
                    lemma_table_map_remove::<String, Property>(self.properties@, i as int);
                }
                let _ = self.properties.remove(i);
                proof {
                    assert(forall|a: int|
                        0 <= a < self.properties@.len() ==> (#[trigger] self.properties@[a])
                            == (if a < i as int {
                            pre[a]
                        } else {
                            pre[a + 1]
                        }));
                    assert(forall|a: int|
                        0 <= a < self.properties@.len() ==> (#[trigger] self.properties@[a]).0@
                            != name@);
                }
            },
            None => {},
        }
        let ghost mid = self.properties@;
        let ghost gname = name;
        let ghost gvalue = value;
        self.properties.push((name, value));
        proof {
            lemma_table_map_push::<String, Property>(mid, gname, gvalue);
            assert(table_map(self.properties@) =~= old(self)@.properties.insert(gname@, gvalue@));
            assert(self@ =~= (FontView {
                properties: old(self)@.properties.insert(gname@, gvalue@),
                ..old(self)@
            }));
        }
    }

    /// Removes the property a name carries, if any, and returns it.
    pub fn remove_property(&mut self, name: &str) -> (r: Option<Property>)
        requires
            old(self).well_formed(),
        ensures
            final(self).well_formed(),
            match r {
                Some(p) => {
                    &&& old(self)@.properties.contains_key(name@)
                    &&& p@ == old(self)@.properties[name@]
                    &&& final(self)@ == (FontView {
                        properties: old(self)@.properties.remove(name@),
                        ..old(self)@
                    })
                },
                None => {
                    &&& !old(self)@.properties.contains_key(name@)
                    &&& final(self)@ == old(self)@
                },
            },
    {
        proof {
            lemma_table_map_domain::<String, Property>(self.properties@, name@);
        }
        match find_key_string(&self.properties, name) {
            Some(i) => {
                proof {
                    lemma_table_map_at::<String, Property>(self.properties@, i as int);
                    lemma_table_map_remove::<String, Property>(self.properties@, i as int);
                }
                let entry = self.properties.remove(i);
                proof {
                    assert(self@ =~= (FontView {
                        properties: old(self)@.properties.remove(name@),
                        ..old(self)@
                    }));
                }
                Some(entry.1)
            },
            None => None,
        }
    }

    /// Replaces the property table wholesale; the new entries must carry
    /// one property per name.
    pub fn set_properties(&mut self, properties: Vec<(String, Property)>)
        requires
            distinct_keys(properties@),
        ensures
            old(self).well_formed() ==> final(self).well_formed(),
            final(self)@ == (FontView { properties: table_map(properties@), ..old(self)@ }),
    {
        self.properties = properties;
        proof {
            assert(self@ =~= (FontView { properties: table_map(self.properties@), ..old(self)@ }));
        }
    }

    /// Gets the glyph table, one entry per character.
    pub fn glyphs(&self) -> (r: &Vec<(char, Glyph)>)
        ensures
            table_map(r@) == self@.glyphs,
            self.well_formed() ==> distinct_keys(r@),
    {
        &self.glyphs
    }

    /// Looks one glyph up by its character.
    pub fn glyph(&self, c: char) -> (r: Option<&Glyph>)
        requires
            self.well_formed(),
        ensures
            match r {
                Some(g) => self@.glyphs.contains_key(c) && g@ == self@.glyphs[c],
                None => !self@.glyphs.contains_key(c),
            },
    {
        proof {
            lemma_table_map_domain::<char, Glyph>(self.glyphs@, c);
        }
        match find_key_char(&self.glyphs, c) {
            Some(i) => {
                proof {
                    lemma_table_map_at::<char, Glyph>(self.glyphs@, i as int);
                }
                Some(&self.glyphs[i].1)
            },
            None => None,
        }
    }

    /// Inserts a glyph for a character, replacing any glyph that character
    /// already carried.
    pub fn insert_glyph(&mut self, c: char, glyph: Glyph)
        requires
            old(self).well_formed(),
        ensures
            final(self).well_formed(),
            final(self)@ == (FontView {
                glyphs: old(self)@.glyphs.insert(c, glyph@),
                ..old(self)@
            }),
    {
        let ghost pre = self.glyphs@;
        match find_key_char(&self.glyphs, c) {
            Some(i) => {
                proof {
                    lemma_table_map_remove::<char, Glyph>(self.glyphs@, i as int);
                }
                let _ = self.glyphs.remove(i);
                proof {
                    assert(forall|a: int|
                        0 <= a < self.glyphs@.len() ==> (#[trigger] self.glyphs@[a]) == (if a
                            < i as int {
                            pre[a]
                        } else {
                            pre[a + 1]
                        }));
                    assert(forall|a: int|
                        0 <= a < self.glyphs@.len() ==> (#[trigger] self.glyphs@[a]).0 != c);
                }
            },
            None => {},
        }
        let ghost mid = self.glyphs@;
        let ghost gglyph = glyph;
        self.glyphs.push((c, glyph));
        proof {
            lemma_table_map_push::<char, Glyph>(mid, c, gglyph);
            assert(table_map(self.glyphs@) =~= old(self)@.glyphs.insert(c, gglyph@));
            assert(self@ =~= (FontView {
                glyphs: old(self)@.glyphs.insert(c, gglyph@),
                ..old(self)@
            }));
        }
    }

    /// Removes the glyph a character carries, if any, and returns it.
    pub fn remove_glyph(&mut self, c: char) -> (r: Option<Glyph>)
        requires
            old(self).well_formed(),
        ensures
            final(self).well_formed(),
            match r {
                Some(g) => {
                    &&& old(self)@.glyphs.contains_key(c)
                    &&& g@ == old(self)@.glyphs[c]
                    &&& final(self)@ == (FontView {
                        glyphs: old(self)@.glyphs.remove(c),
                        ..old(self)@
                    })
                },
                None => {
                    &&& !old(self)@.glyphs.contains_key(c)
                    &&& final(self)@ == old(self)@
                },
            },
    {
        proof {
            lemma_table_map_domain::<char, Glyph>(self.glyphs@, c);
        }
        match find_key_char(&self.glyphs, c) {
            Some(i) => {
                proof {
                    lemma_table_map_at::<char, Glyph>(self.glyphs@, i as int);
                    lemma_table_map_remove::<char, Glyph>(self.glyphs@, i as int);
                }
                let entry = self.glyphs.remove(i);
                proof {
                    assert(self@ =~= (FontView {
                        glyphs: old(self)@.glyphs.remove(c),
                        ..old(self)@
                    }));
                }
                Some(entry.1)
            },
            None => None,
        }
    }

    /// Replaces the glyph table wholesale; the new entries must carry one
    /// glyph per character.
    pub fn set_glyphs(&mut self, glyphs: Vec<(char, Glyph)>)
        requires
            distinct_keys(glyphs@),
        ensures
            old(self).well_formed() ==> final(self).well_formed(),
            final(self)@ == (FontView { glyphs: table_map(glyphs@), ..old(self)@ }),
    {
        self.glyphs = glyphs;
        proof {
            assert(self@ =~= (FontView { glyphs: table_map(self.glyphs@), ..old(self)@ }));
        }
    }
}

} // verus!
