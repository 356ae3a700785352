//! Defaults of the project configuration.
use vstd::prelude::*;
use vstd::string::StringExecFns;

verus! {

/// The file extensions copied to the output by default.
pub open spec fn default_extensions() -> Seq<Seq<char>> {
    seq![
        "css"@,
        "js"@,
        "png"@,
        "jpg"@,
        "jpeg"@,
        "gif"@,
        "svg"@,
        "webmanifest"@,
        "ico"@,
        "txt"@,
    ]
}

/// The file extensions copied to the output where the configuration names
/// none (without the dot).
pub fn default_extension() -> (r: Vec<String>)
    ensures
        r@.map_values(|s: String| s@) == default_extensions(),
{
    let r = vec![
        String::from_str("css"),
        String::from_str("js"),
        String::from_str("png"),
        String::from_str("jpg"),
        String::from_str("jpeg"),
        String::from_str("gif"),
        String::from_str("svg"),
        String::from_str("webmanifest"),
        String::from_str("ico"),
        String::from_str("txt"),
    ];
    assert(r@.map_values(|s: String| s@) =~= default_extensions());
    r
}

/// The prompt of the image describer where the configuration names none.
pub fn default_prompt() -> (r: String)
    ensures
        r@ == "Describe this image in detail"@,
{
    String::from_str("Describe this image in detail")
}

/// Where the route maps get their tiles from.
pub struct GpxEmbeddingConfig {
    /// Tile servers, each serving `<base>/<zoom>/<x>/<y>.png`.
    pub base: Vec<String>,
    /// A PNG drawn in the bottom right corner of each map.
    pub attribution_png: Option<String>,
}

/// The public OpenStreetMap tile server, and no attribution image.
impl Default for GpxEmbeddingConfig {
    fn default() -> (r: GpxEmbeddingConfig)
        ensures
            r.base@.map_values(|s: String| s@) == seq!["https://tile.openstreetmap.org"@],
            r.attribution_png is None,
    {
        let base = vec![String::from_str("https://tile.openstreetmap.org")];
        assert(base@.map_values(|s: String| s@) =~= seq!["https://tile.openstreetmap.org"@]);
        GpxEmbeddingConfig { base, attribution_png: None }
    }
}

} // verus!
