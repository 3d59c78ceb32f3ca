//! Page assets and logo embedding: the three asset texts the renderer
//! consumes, and the conversion of raw image bytes into a `data:` URI.

use vstd::prelude::*;
use crate::text::str_eq;

verus! {

/// The three texts the page shell is assembled from.
#[derive(Debug, Clone)]
pub struct Assets {
    pub styles: String,
    pub script: String,
    pub template: String,
}

/// Why a logo image could not be embedded.
#[derive(Debug)]
pub enum EmbedError {
    ReadError { path: String, message: String },
    UnsupportedFormat(String),
}

/// What the standard base64 alphabet encodes the bytes to.
pub uninterp spec fn base64_of(bytes: Seq<u8>) -> Seq<char>;

/// Relies on `base64::engine::general_purpose::STANDARD` and
/// `base64::Engine::encode`: standard-alphabet, padded base64 text. The
/// result depends on the bytes alone.
#[verifier::external_body]
fn base64_encode(bytes: &Vec<u8>) -> (r: String)
    ensures
        r@ == base64_of(bytes@),
{
    base64::Engine::encode(&base64::engine::general_purpose::STANDARD, bytes)
}

/// The extension of a path: what follows the last '.' of its final
/// component, unless that dot starts the component.
pub open spec fn spec_ext_scan(p: Seq<char>, j: int) -> Option<Seq<char>>
    decreases j + 1,
{
    if j < 0 || j >= p.len() {
        None
    } else if p[j] == '/' {
        None
    } else if p[j] == '.' {
        if j == 0 || p[j - 1] == '/' {
            None
        } else {
            Some(p.skip(j + 1))
        }
    } else {
        spec_ext_scan(p, j - 1)
    }
}

pub open spec fn spec_extension(p: Seq<char>) -> Option<Seq<char>> {
    spec_ext_scan(p, p.len() - 1)
}

/// The MIME type for a recognized image extension.
pub open spec fn spec_mime(ext: Seq<char>) -> Option<Seq<char>> {
    if ext == "png"@ {
        Some("image/png"@)
    } else if ext == "jpg"@ || ext == "jpeg"@ {
        Some("image/jpeg"@)
    } else if ext == "gif"@ {
        Some("image/gif"@)
    } else if ext == "svg"@ {
        Some("image/svg+xml"@)
    } else if ext == "webp"@ {
        Some("image/webp"@)
    } else {
        None
    }
}

fn extension_of(p: &str) -> (r: Option<String>)
    ensures
        match r {
            Some(e) => spec_extension(p@) == Some(e@),
            None => spec_extension(p@) is None,
        },
{
    let n = p.unicode_len();
    let mut j: usize = n;
    while j > 0
        invariant
            0 <= j <= n == p@.len(),
            spec_ext_scan(p@, n - 1) == spec_ext_scan(p@, j - 1),
        decreases j,
    {
        let c = p.get_char(j - 1);
        if c == '/' {
            return None;
        }
        if c == '.' {
            if j - 1 == 0 || p.get_char(j - 2) == '/' {
                return None;
            }
            proof {
                assert(p@.subrange(j as int, n as int) =~= p@.skip(j as int));
            }
            return Some(p.substring_char(j, n).to_owned());
        }
        j -= 1;
    }
    None
}

/// The data URI embedding the image bytes, typed by the path's extension:
/// `data:<mime>;base64,<encoded bytes>`; a missing or unrecognized extension
/// is rejected as an unsupported format.
pub fn data_uri_for(bytes: &Vec<u8>, path: &str) -> (r: Result<String, EmbedError>)
    ensures
        ({
            match spec_extension(path@) {
                Option::None => r matches Err(EmbedError::UnsupportedFormat(s)) && s@
                    == "unknown"@,
                Option::Some(ext) => match spec_mime(ext) {
                    Option::None => r matches Err(EmbedError::UnsupportedFormat(s)) && s@
                        == ext,
                    Option::Some(m) => r matches Ok(u) && u@ == "data:"@ + m + ";base64,"@
                        + base64_of(bytes@),
                },
            }
        }),
{
    let ext = match extension_of(path) {
        None => {
            return Err(EmbedError::UnsupportedFormat("unknown".to_owned()));
        },
        Some(e) => e,
    };
    let mime: &str = if str_eq(ext.as_str(), "png") {
        "image/png"
    } else if str_eq(ext.as_str(), "jpg") || str_eq(ext.as_str(), "jpeg") {
        "image/jpeg"
    } else if str_eq(ext.as_str(), "gif") {
        "image/gif"
    } else if str_eq(ext.as_str(), "svg") {
        "image/svg+xml"
    } else if str_eq(ext.as_str(), "webp") {
        "image/webp"
    } else {
        return Err(EmbedError::UnsupportedFormat(ext));
    };
    let encoded = base64_encode(bytes);
    let mut out = String::new();
    out.append("data:");
    out.append(mime);
    out.append(";base64,");
    out.append(encoded.as_str());
    proof {
        assert(out@ =~= "data:"@ + mime@ + ";base64,"@ + base64_of(bytes@));
    }
    Ok(out)
}

} // verus!
