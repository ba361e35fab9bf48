//! Cuts a master vector document into standalone, themed icon documents.
//!
//! The master document holds many named icon groups and one shared
//! definitions subtree. For every group that a theme registry knows, the
//! library builds a document of its own: the definitions, recolored for the
//! icon's theme, followed by the group, under a root whose viewport is the
//! group's bounding box plus a margin. Rendering and packing the resulting
//! documents is left to the caller.
//!
//! The library works on integers, text and bytes. Coordinates reach it as
//! ordered keys (see [`coordinate_key`]), and two things are asked of the
//! caller while an [`Extraction`] runs: the shapes of a document, and the
//! text of a viewport.
//!
//! ```text
//! let master = parse_document(&bytes)?;
//! let (mut state, mut request) = Extraction::start(&master, &registry)?;
//! loop {
//!     let reply = match request {
//!         Request::Measure(document) => Reply::Shape(shapes_of(&document)),
//!         Request::Frame(bounds) => Reply::Viewport(viewport_of(bounds)),
//!         Request::Finish => break,
//!     };
//!     (state, request) = state.step(reply)?;
//! }
//! let documents = state.into_documents();
//! ```

pub mod bbox;
pub mod color;
pub mod extract;
pub mod rewrite;
pub mod theme;
pub mod xml;
pub mod xml_io;

pub use bbox::{
    bounding_box, compute_bbox, coordinate_key, key_coordinate, measure, Bounds, ShapeNode,
};
pub use color::{format_color, mix, parse_color, recolor};
pub use extract::{
    icon_document, is_ignored, probe_document, resolve_icon_name, select_icons, themed_definitions,
    ExtractError, Extraction, IconJob, Reply, Request,
};
pub use rewrite::{find_color_tokens, process_colors, recolor_text, splice, ColorToken};
pub use theme::{ColorPair, ThemeError, ThemeRegistry};
pub use xml::{remove_text_elements, XmlElement, XmlNode};
pub use xml_io::{parse_document, serialize, DocumentError};
