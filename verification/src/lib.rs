//! In-memory data model for a BDF-style bitmap font description: the typed
//! property values with their quoted-string and decimal-integer encoding
//! rules, and the font aggregate that owns all font-level state.

pub mod font;
pub mod numeral;
pub mod property;
pub mod table;

pub use font::BoundingBox;
pub use font::Font;
pub use font::FontView;
pub use font::Glyph;
pub use font::GlyphView;
pub use font::Size;
pub use property::Property;
pub use property::PropertyView;
pub use property::extract;
