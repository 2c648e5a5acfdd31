//! Agent citation links (`papers/<id>/<id>.pdf#figure=1`, `#section=2.3`,
//! `#region=…`, `#page=3`): parsing the link and choosing what it points at.
pub mod headings;
pub mod labels;
pub mod resolve;
pub mod similarity;
pub mod source;
pub mod target;
