//! Saving a profile: which format a file name asks for.
use vstd::prelude::*;

use crate::text::same_text;

verus! {

/// The formats a profile can be saved in.
#[derive(Debug, Clone, Copy, PartialEq, Eq, Structural)]
pub enum ProfileFormat {
    Json,
    Yaml,
    Toml,
    Hjson,
    Ron,
}

/// The format that a file extension names, if any.
pub open spec fn spec_format_for_extension(ext: Seq<char>) -> Option<ProfileFormat> {
    if ext == "json"@ {
        Some(ProfileFormat::Json)
    } else if ext == "yaml"@ || ext == "yml"@ {
        Some(ProfileFormat::Yaml)
    } else if ext == "toml"@ {
        Some(ProfileFormat::Toml)
    } else if ext == "hjson"@ {
        Some(ProfileFormat::Hjson)
    } else if ext == "ron"@ {
        Some(ProfileFormat::Ron)
    } else {
        None
    }
}

/// The format a profile file is written in, chosen by its extension; `None`
/// for an unsupported extension.
pub fn format_for_extension(ext: &str) -> (r: Option<ProfileFormat>)
    ensures
        r == spec_format_for_extension(ext@),
{
    if same_text(ext, "json") {
        Some(ProfileFormat::Json)
    } else if same_text(ext, "yaml") || same_text(ext, "yml") {
        Some(ProfileFormat::Yaml)
    } else if same_text(ext, "toml") {
        Some(ProfileFormat::Toml)
    } else if same_text(ext, "hjson") {
        Some(ProfileFormat::Hjson)
    } else if same_text(ext, "ron") {
        Some(ProfileFormat::Ron)
    } else {
        None
    }
}

} // verus!
