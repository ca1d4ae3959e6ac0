//! How pages are prepared for the vision model, and how an unreadable model
//! reply is reported.

use vstd::prelude::*;

use crate::text::{byte_prefix, prefix_within_bytes};

verus! {

/// How the pages of a request are prepared.
#[derive(Debug, Clone, Copy, Eq, PartialEq, Structural)]
pub enum PrepMode {
    /// Every page as JPEG at most 672 pixels on its longest side.
    Legacy672Jpeg,
    /// The center page as PNG at most 1024 pixels, the others as legacy JPEG.
    CenterPng1024,
    /// Every page as PNG at most 1024 pixels.
    AllPng1024,
}

/// The part a page plays in a request.
#[derive(Debug, Clone, Copy, Eq, PartialEq, Structural)]
pub enum ImageRole {
    Context,
    Center,
}

/// The encoding a page is sent in.
#[derive(Debug, Clone, Copy, Eq, PartialEq, Structural)]
pub enum PageEncoding {
    /// JPEG, at most 672 pixels on the longest side.
    Jpeg672,
    /// PNG, at most 1024 pixels on the longest side.
    Png1024,
}

pub open spec fn encoding_for(prep: PrepMode, role: ImageRole) -> PageEncoding {
    match prep {
        PrepMode::Legacy672Jpeg => PageEncoding::Jpeg672,
        PrepMode::CenterPng1024 => if role == ImageRole::Center {
            PageEncoding::Png1024
        } else {
            PageEncoding::Jpeg672
        },
        PrepMode::AllPng1024 => PageEncoding::Png1024,
    }
}

/// Which encoding a page gets under a preparation mode.
pub fn page_encoding(prep: PrepMode, role: ImageRole) -> (e: PageEncoding)
    ensures
        e == encoding_for(prep, role),
{
    match prep {
        PrepMode::Legacy672Jpeg => PageEncoding::Jpeg672,
        PrepMode::CenterPng1024 => match role {
            ImageRole::Center => PageEncoding::Png1024,
            ImageRole::Context => PageEncoding::Jpeg672,
        },
        PrepMode::AllPng1024 => PageEncoding::Png1024,
    }
}

/// The media type of an encoding.
pub fn encoding_mime(e: PageEncoding) -> (s: &'static str)
    ensures
        s@ == (match e {
            PageEncoding::Jpeg672 => "image/jpeg"@,
            PageEncoding::Png1024 => "image/png"@,
        }),
{
    match e {
        PageEncoding::Jpeg672 => "image/jpeg",
        PageEncoding::Png1024 => "image/png",
    }
}

/// The text with each line feed turned into a space.
pub open spec fn flattened(s: Seq<char>) -> Seq<char> {
    s.map_values(|c: char| if c == '\n' { ' ' } else { c })
}

pub open spec fn unparsed_window_message(raw: Option<Seq<char>>) -> Seq<char> {
    let text = match raw {
        Some(t) => t,
        None => "<no content>"@,
    };
    "Failed to parse visible-window prediction. Raw model output: "@ + byte_prefix(flattened(text), 240)
}

/// Reports a window reply that named no mood, quoting its text on one line,
/// cut to the characters that fit in 240 bytes.
pub fn unparsed_window_error(raw: Option<&str>) -> (m: String)
    ensures
        m@ == unparsed_window_message(match raw {
            Some(t) => Some(t@),
            None => None,
        }),
{
    let text: &str = match raw {
        Some(t) => t,
        None => "<no content>",
    };
    let chars = crate::text::chars_of(text);
    let n = chars.len();
    let mut flat = String::new();
    let mut start: usize = 0;
    let mut i: usize = 0;
    while i < n
        invariant
            chars@ == text@,
            n == chars@.len(),
            start <= i <= n,
            flat@ == flattened(text@.take(start as int)),
            forall|k: int| start <= k < i ==> #[trigger] text@[k] != '\n',
        decreases n - i,
    {
        if chars[i] == '\n' {
            let ghost before = flat@;
            flat.append(text.substring_char(start, i));
            flat.append(" ");
            assert(flattened(text@.take(i + 1)) =~= before + text@.subrange(start as int, i as int) + " "@) by {
                reveal_strlit(" ");
            }
            start = i + 1;
        }
        i = i + 1;
    }
    let ghost before = flat@;
    flat.append(text.substring_char(start, n));
    assert(flattened(text@) =~= before + text@.subrange(start as int, n as int));
    assert(text@.take(n as int) =~= text@);
    let mut m = "Failed to parse visible-window prediction. Raw model output: ".to_string();
    m.append(prefix_within_bytes(flat.as_str(), 240));
    m
}

} // verus!
