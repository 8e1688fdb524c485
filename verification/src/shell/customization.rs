//! Taskbar preferences the launcher offers: the registry codes behind each
//! named choice, the Start icon choice, and the checks on custom icon
//! uploads (base64 PNG data, size limits, stored icon ids).

use vstd::prelude::*;
use base64::Engine;
use image::ImageDecoder;
use crate::shell::icon_file::IconPixels;
use crate::text::{concat, str_eq};

verus! {

// ---------------------------------------------------------------------------
// Registry codes
// ---------------------------------------------------------------------------

/// The taskbar thickness shown for the legacy size value and the icon size
/// preference: any zero is compact, preference 2 is adaptive.
pub open spec fn thickness_label(legacy_value: u32, icon_preference: u32) -> Seq<char> {
    if icon_preference == 0 || legacy_value == 0 {
        "compact"@
    } else if icon_preference == 2 {
        "adaptive"@
    } else {
        "default"@
    }
}

pub fn thickness_name(legacy_value: u32, icon_preference: u32) -> (r: &'static str)
    ensures
        r@ == thickness_label(legacy_value, icon_preference),
{
    if icon_preference == 0 || legacy_value == 0 {
        "compact"
    } else if icon_preference == 2 {
        "adaptive"
    } else {
        "default"
    }
}

/// Taskbar button grouping: 1 is "whenFull", 2 "never", anything else
/// "always".
pub open spec fn combine_label(value: u32) -> Seq<char> {
    if value == 1 {
        "whenFull"@
    } else if value == 2 {
        "never"@
    } else {
        "always"@
    }
}

pub fn combine_name(value: u32) -> (r: &'static str)
    ensures
        r@ == combine_label(value),
{
    if value == 1 {
        "whenFull"
    } else if value == 2 {
        "never"
    } else {
        "always"
    }
}

/// The search box mode: 0 hidden, 2 box, 3 icon with label, anything else
/// icon.
pub open spec fn searchbox_label(value: u32) -> Seq<char> {
    if value == 0 {
        "hidden"@
    } else if value == 2 {
        "box"@
    } else if value == 3 {
        "iconWithLabel"@
    } else {
        "icon"@
    }
}

pub fn searchbox_mode_name(value: u32) -> (r: &'static str)
    ensures
        r@ == searchbox_label(value),
{
    if value == 0 {
        "hidden"
    } else if value == 2 {
        "box"
    } else if value == 3 {
        "iconWithLabel"
    } else {
        "icon"
    }
}

/// The (legacy size, icon size preference) written for a thickness.
pub open spec fn thickness_codes_of(value: Seq<char>) -> Option<(u32, u32)> {
    if value == "compact"@ {
        Some((0, 0))
    } else if value == "default"@ {
        Some((1, 1))
    } else if value == "adaptive"@ {
        Some((1, 2))
    } else {
        None
    }
}

fn refusal(prefix: &str, value: &str) -> (r: String)
    ensures
        r@ == prefix@ + value@ + "'"@,
{
    let head = concat(prefix, value);
    concat(head.as_str(), "'")
}

pub fn thickness_codes(value: &str) -> (r: Result<(u32, u32), String>)
    ensures
        match thickness_codes_of(value@) {
            Some(codes) => r == Ok::<(u32, u32), String>(codes),
            None => r matches Err(e) && e@ == "unsupported taskbar thickness '"@ + value@ + "'"@,
        },
{
    if str_eq(value, "compact") {
        Ok((0, 0))
    } else if str_eq(value, "default") {
        Ok((1, 1))
    } else if str_eq(value, "adaptive") {
        Ok((1, 2))
    } else {
        Err(refusal("unsupported taskbar thickness '", value))
    }
}

/// The grouping code written for a choice.
pub open spec fn combine_code_of(value: Seq<char>) -> Option<u32> {
    if value == "always"@ {
        Some(0)
    } else if value == "whenFull"@ {
        Some(1)
    } else if value == "never"@ {
        Some(2)
    } else {
        None
    }
}

pub fn combine_code(value: &str) -> (r: Result<u32, String>)
    ensures
        match combine_code_of(value@) {
            Some(code) => r == Ok::<u32, String>(code),
            None => r matches Err(e) && e@ == "unsupported taskbar grouping '"@ + value@ + "'"@,
        },
{
    if str_eq(value, "always") {
        Ok(0)
    } else if str_eq(value, "whenFull") {
        Ok(1)
    } else if str_eq(value, "never") {
        Ok(2)
    } else {
        Err(refusal("unsupported taskbar grouping '", value))
    }
}

/// The search box code written for a choice; the older names are
/// accepted too.
pub open spec fn searchbox_code_of(value: Seq<char>) -> Option<u32> {
    if value == "hidden"@ {
        Some(0)
    } else if value == "icon"@ || value == "button"@ {
        Some(1)
    } else if value == "box"@ || value == "searchBox"@ {
        Some(2)
    } else if value == "iconWithLabel"@ || value == "buttonWithLabel"@ {
        Some(3)
    } else {
        None
    }
}

pub fn searchbox_code(value: &str) -> (r: Result<u32, String>)
    ensures
        match searchbox_code_of(value@) {
            Some(code) => r == Ok::<u32, String>(code),
            None => r matches Err(e) && e@ == "unsupported searchbox mode '"@ + value@ + "'"@,
        },
{
    if str_eq(value, "hidden") {
        Ok(0)
    } else if str_eq(value, "icon") || str_eq(value, "button") {
        Ok(1)
    } else if str_eq(value, "box") || str_eq(value, "searchBox") {
        Ok(2)
    } else if str_eq(value, "iconWithLabel") || str_eq(value, "buttonWithLabel") {
        Ok(3)
    } else {
        Err(refusal("unsupported searchbox mode '", value))
    }
}

/// A stored choice reads back as itself: writing the codes of a named
/// thickness, grouping or search box mode and reading them back gives the
/// same name (the older search box names read back under their current
/// ones).
pub proof fn law_taskbar_choices_round_trip(value: Seq<char>)
    ensures
        thickness_codes_of(value) matches Some((legacy, preference)) ==> thickness_label(
            legacy,
            preference,
        ) == value,
        combine_code_of(value) matches Some(code) ==> combine_label(code) == value,
        searchbox_code_of(value) matches Some(code) ==> (searchbox_label(code) == value || value
            == "button"@ || value == "searchBox"@ || value == "buttonWithLabel"@),
{
}

// ---------------------------------------------------------------------------
// Start icon choice
// ---------------------------------------------------------------------------

#[derive(Clone, Copy, Debug, PartialEq, Eq, Structural)]
pub enum StartIcon {
    System,
    Gem,
    Diamond,
    Custom,
}

pub open spec fn start_icon_of(value: Seq<char>) -> Option<StartIcon> {
    if value == "system"@ {
        Some(StartIcon::System)
    } else if value == "gem"@ {
        Some(StartIcon::Gem)
    } else if value == "diamond"@ {
        Some(StartIcon::Diamond)
    } else if value == "custom"@ {
        Some(StartIcon::Custom)
    } else {
        None
    }
}

pub open spec fn start_icon_label(icon: StartIcon) -> Seq<char> {
    match icon {
        StartIcon::System => "system"@,
        StartIcon::Gem => "gem"@,
        StartIcon::Diamond => "diamond"@,
        StartIcon::Custom => "custom"@,
    }
}

impl StartIcon {
    pub fn parse(value: &str) -> (r: Result<StartIcon, String>)
        ensures
            match start_icon_of(value@) {
                Some(icon) => r == Ok::<StartIcon, String>(icon),
                None => r matches Err(e) && e@ == "unsupported Start icon '"@ + value@ + "'"@,
            },
    {
        if str_eq(value, "system") {
            Ok(StartIcon::System)
        } else if str_eq(value, "gem") {
            Ok(StartIcon::Gem)
        } else if str_eq(value, "diamond") {
            Ok(StartIcon::Diamond)
        } else if str_eq(value, "custom") {
            Ok(StartIcon::Custom)
        } else {
            Err(refusal("unsupported Start icon '", value))
        }
    }

    pub fn name(self) -> (r: &'static str)
        ensures
            r@ == start_icon_label(self),
    {
        match self {
            StartIcon::System => "system",
            StartIcon::Gem => "gem",
            StartIcon::Diamond => "diamond",
            StartIcon::Custom => "custom",
        }
    }
}

/// Every Start icon choice reads back from its own name.
pub proof fn law_start_icon_name_round_trip(icon: StartIcon)
    ensures
        start_icon_of(start_icon_label(icon)) == Some(icon),
{
    reveal_strlit("system");
    reveal_strlit("gem");
    reveal_strlit("diamond");
    reveal_strlit("custom");
    assert("gem"@.len() != "system"@.len());
    assert("diamond"@.len() != "system"@.len() && "diamond"@.len() != "gem"@.len());
    assert("custom"@[0] != "system"@[0] && "custom"@.len() != "gem"@.len() && "custom"@.len()
        != "diamond"@.len());
}

// ---------------------------------------------------------------------------
// Custom icons
// ---------------------------------------------------------------------------

/// Largest accepted icon upload, in bytes.
pub const MAX_ICON_BYTES: usize = 2097152;

/// Most custom icons kept.
pub const MAX_CUSTOM_ICONS: usize = 12;

/// Largest accepted icon side, in pixels.
pub const MAX_ICON_EDGE: u32 = 4096;

/// Largest accepted icon area, in pixels.
pub const MAX_ICON_PIXELS: u64 = 16777216;

/// Side of the square preview an upload is stored as.
pub const PREVIEW_EDGE: u32 = 96;

/// The width and height in the header of a PNG image, as the `image`
/// crate's PNG decoder reads them; nothing when the header is not a PNG's.
pub uninterp spec fn png_header_size(bytes: Seq<u8>) -> Option<(u32, u32)>;

/// The RGBA8 pixels (width, height, bytes) the `image` crate decodes from a
/// PNG; nothing when it cannot decode it.
pub uninterp spec fn png_rgba8(bytes: Seq<u8>) -> Option<(u32, u32, Seq<u8>)>;

/// `PngDecoder::new` on the bytes, then `ImageDecoder::dimensions`: the
/// size in the PNG header, or nothing when the decoder refuses the data.
#[verifier::external_body]
fn png_dimensions(bytes: &[u8]) -> (r: Option<(u32, u32)>)
    ensures
        r == png_header_size(bytes@),
{
    image::codecs::png::PngDecoder::new(std::io::Cursor::new(bytes)).ok().map(|decoder| decoder.dimensions())
}

/// `PngDecoder::new`, `DynamicImage::from_decoder` and `to_rgba8` on the
/// bytes: the decoded pixels, whose size is the header's, or nothing when
/// decoding fails.
#[verifier::external_body]
fn png_pixels(bytes: &[u8]) -> (r: Option<IconPixels>)
    ensures
        match r {
            Some(icon) => png_rgba8(bytes@) == Some((icon.width, icon.height, icon.rgba@))
                && png_header_size(bytes@) == Some((icon.width, icon.height)),
            None => png_rgba8(bytes@) is None,
        },
{
    let decoder = image::codecs::png::PngDecoder::new(std::io::Cursor::new(bytes)).ok()?;
    let image = image::DynamicImage::from_decoder(decoder).ok()?.to_rgba8();
    Some(IconPixels { width: image.width(), height: image.height(), rgba: image.into_raw() })
}

/// An icon size the launcher accepts.
pub open spec fn icon_size_ok(width: u32, height: u32) -> bool {
    &&& width != 0
    &&& height != 0
    &&& width <= MAX_ICON_EDGE
    &&& height <= MAX_ICON_EDGE
    &&& width * height <= MAX_ICON_PIXELS
}

/// How an icon file is read: refused when empty or over 2 MB, when it is
/// not a PNG, when its size is not accepted, or when it does not decode.
pub open spec fn decoded_icon(bytes: Seq<u8>) -> Result<(u32, u32, Seq<u8>), Seq<char>> {
    if bytes.len() == 0 || bytes.len() > MAX_ICON_BYTES {
        Err("Choose a PNG smaller than 2 MB"@)
    } else {
        match png_header_size(bytes) {
            None => Err("The selected file is not a valid PNG"@),
            Some((w, h)) => if !icon_size_ok(w, h) {
                Err("Choose a PNG no larger than 4096 x 4096 pixels"@)
            } else {
                match png_rgba8(bytes) {
                    Some(px) => Ok(px),
                    None => Err("The selected PNG could not be decoded"@),
                }
            },
        }
    }
}

pub fn decode_png(bytes: &[u8]) -> (r: Result<IconPixels, String>)
    ensures
        match decoded_icon(bytes@) {
            Ok((w, h, px)) => r matches Ok(icon) && icon.width == w && icon.height == h
                && icon.rgba@ == px,
            Err(m) => r matches Err(e) && e@ == m,
        },
{
    if bytes.len() == 0 || bytes.len() > MAX_ICON_BYTES {
        return Err("Choose a PNG smaller than 2 MB".to_owned());
    }
    let (width, height) = match png_dimensions(bytes) {
        Some(size) => size,
        None => return Err("The selected file is not a valid PNG".to_owned()),
    };
    if width == 0 || height == 0 || width > MAX_ICON_EDGE || height > MAX_ICON_EDGE {
        return Err("Choose a PNG no larger than 4096 x 4096 pixels".to_owned());
    }
    assert((width as u64) * (height as u64) <= 4096 * 4096) by (nonlinear_arith)
        requires
            width <= 4096,
            height <= 4096,
    ;
    if (width as u64) * (height as u64) > MAX_ICON_PIXELS {
        return Err("Choose a PNG no larger than 4096 x 4096 pixels".to_owned());
    }
    match png_pixels(bytes) {
        Some(icon) => Ok(icon),
        None => Err("The selected PNG could not be decoded".to_owned()),
    }
}

/// `base64::engine::general_purpose::STANDARD.decode`, with its error
/// reduced to nothing. The engine pads, requires canonical padding and
/// refuses trailing bits, so it accepts exactly the texts its encoder
/// produces and gives back the bytes that were encoded.
#[verifier::external_body]
fn base64_decode(text: &str) -> (r: Option<Vec<u8>>)
    ensures
        match r {
            Some(bytes) => base64_padded(bytes@) == text@,
            None => forall|b: Seq<u8>| #[trigger] base64_padded(b) != text@,
        },
{
    base64::engine::general_purpose::STANDARD.decode(text).ok()
}

/// The bytes of an uploaded icon, sent as base64 text: those whose padded
/// standard base64 the text is; an error when no bytes encode to it.
pub fn decode_icon_upload(base64_png: &str) -> (r: Result<Vec<u8>, String>)
    ensures
        match r {
            Ok(b) => base64_padded(b@) == base64_png@,
            Err(e) => e@ == "The icon data was corrupted in transit"@ && forall|b: Seq<u8>|
                #[trigger] base64_padded(b) != base64_png@,
        },
{
    match base64_decode(base64_png) {
        Some(bytes) => Ok(bytes),
        None => Err("The icon data was corrupted in transit".to_owned()),
    }
}

/// The standard base64 alphabet.
pub open spec fn b64_symbol(v: int) -> char {
    "ABCDEFGHIJKLMNOPQRSTUVWXYZabcdefghijklmnopqrstuvwxyz0123456789+/"@[v]
}

/// Standard base64 with padding (RFC 4648): each three bytes become four
/// symbols, a final one or two bytes become four symbols ending in `=`.
pub open spec fn base64_padded(bytes: Seq<u8>) -> Seq<char>
    decreases bytes.len(),
{
    if bytes.len() == 0 {
        seq![]
    } else if bytes.len() == 1 {
        let a = bytes[0] as int;
        seq![b64_symbol(a / 4), b64_symbol((a % 4) * 16), '=', '=']
    } else if bytes.len() == 2 {
        let a = bytes[0] as int;
        let b = bytes[1] as int;
        seq![b64_symbol(a / 4), b64_symbol((a % 4) * 16 + b / 16), b64_symbol((b % 16) * 4), '=']
    } else {
        let a = bytes[0] as int;
        let b = bytes[1] as int;
        let c = bytes[2] as int;
        seq![
            b64_symbol(a / 4),
            b64_symbol((a % 4) * 16 + b / 16),
            b64_symbol((b % 16) * 4 + c / 64),
            b64_symbol(c % 64),
        ] + base64_padded(bytes.skip(3))
    }
}

/// `base64::engine::general_purpose::STANDARD.encode`: padded standard
/// base64 of the bytes.
#[verifier::external_body]
fn base64_encode(bytes: &[u8]) -> (r: String)
    ensures
        r@ == base64_padded(bytes@),
{
    base64::engine::general_purpose::STANDARD.encode(bytes)
}

/// A stored custom icon as the settings panel lists it: its id and its PNG
/// preview as base64 text.
#[derive(Debug)]
pub struct CustomStartIcon {
    pub id: String,
    pub preview: String,
}

pub fn custom_start_icon(id: String, preview_png: &[u8]) -> (r: CustomStartIcon)
    ensures
        r.id@ == id@,
        r.preview@ == base64_padded(preview_png@),
{
    CustomStartIcon { id, preview: base64_encode(preview_png) }
}

/// Room for another custom icon: refused once the maximum is stored.
pub fn check_icon_capacity(existing: usize) -> (r: Result<(), String>)
    ensures
        existing < MAX_CUSTOM_ICONS <==> r is Ok,
        r matches Err(e) ==> e@ == "Remove an icon before adding another (maximum 12)"@,
{
    if existing >= MAX_CUSTOM_ICONS {
        Err("Remove an icon before adding another (maximum 12)".to_owned())
    } else {
        Ok(())
    }
}

/// A lowercase hexadecimal digit.
pub open spec fn hex_char(d: int) -> char {
    "0123456789abcdef"@[d]
}

/// `n` in lowercase hexadecimal, zero-padded (or cut) to its last `k`
/// digits.
pub open spec fn hex_padded(n: nat, k: nat) -> Seq<char>
    decreases k,
{
    if k == 0 {
        seq![]
    } else {
        hex_padded(n / 16, (k - 1) as nat).push(hex_char((n % 16) as int))
    }
}

pub(crate) fn hex_digits(n: u128, k: usize) -> (r: Vec<char>)
    ensures
        r@ == hex_padded(n as nat, k as nat),
    decreases k,
{
    if k == 0 {
        Vec::new()
    } else {
        let mut r = hex_digits(n / 16, k - 1);
        let table = "0123456789abcdef";
        proof {
            reveal_strlit("0123456789abcdef");
        }
        let tc = crate::text::chars_of(table);
        r.push(tc[(n % 16) as usize]);
        r
    }
}

/// A new custom icon id from the time in nanoseconds: 32 lowercase hex
/// digits.
pub fn new_custom_icon_id(nanos: u128) -> (r: String)
    ensures
        r@ == hex_padded(nanos as nat, 32),
{
    let digits = hex_digits(nanos, 32);
    crate::text::string_of(digits.as_slice())
}

pub open spec fn is_hex_byte(b: u8) -> bool {
    (48 <= b <= 57) || (65 <= b <= 70) || (97 <= b <= 102)
}

/// A stored icon id: the legacy icon, or exactly 32 ASCII hex digits.
pub open spec fn custom_icon_id_ok(id: Seq<char>) -> bool {
    ||| id == "legacy"@
    ||| {
        let b = vstd::utf8::encode_utf8(id);
        b.len() == 32 && forall|i: int| 0 <= i < b.len() ==> #[trigger] is_hex_byte(b[i])
    }
}

pub fn valid_custom_icon_id(id: &str) -> (r: bool)
    ensures
        r == custom_icon_id_ok(id@),
{
    if str_eq(id, "legacy") {
        return true;
    }
    let bytes = id.as_bytes();
    if bytes.len() != 32 {
        return false;
    }
    let mut i: usize = 0;
    while i < 32
        invariant
            i <= 32,
            id@ != "legacy"@,
            bytes@ == vstd::utf8::encode_utf8(id@),
            bytes@.len() == 32,
            forall|j: int| 0 <= j < i ==> #[trigger] is_hex_byte(bytes@[j]),
        decreases 32 - i,
    {
        let b = bytes[i];
        if !((48 <= b && b <= 57) || (65 <= b && b <= 70) || (97 <= b && b <= 102)) {
            assert(!is_hex_byte(bytes@[i as int]));
            return false;
        }
        i += 1;
    }
    true
}

proof fn lemma_hex_padded_shape(n: nat, k: nat)
    ensures
        hex_padded(n, k).len() == k,
        forall|i: int|
            0 <= i < k ==> '\0' <= #[trigger] hex_padded(n, k)[i] <= '\u{7f}' && is_hex_byte(
                hex_padded(n, k)[i] as u8,
            ),
    decreases k,
{
    reveal_strlit("0123456789abcdef");
    if k > 0 {
        lemma_hex_padded_shape(n / 16, (k - 1) as nat);
        let d = (n % 16) as int;
        assert(0 <= d < 16);
        assert(hex_padded(n, k) == hex_padded(n / 16, (k - 1) as nat).push(hex_char(d)));
    }
}

/// Every id made for a new custom icon is accepted as a stored id.
pub proof fn law_new_icon_ids_are_valid(nanos: u128)
    ensures
        custom_icon_id_ok(hex_padded(nanos as nat, 32)),
{
    let id = hex_padded(nanos as nat, 32);
    lemma_hex_padded_shape(nanos as nat, 32);
    assert(vstd::utf8::is_ascii_chars(id));
    vstd::utf8::is_ascii_chars_encode_utf8(id);
    let b = vstd::utf8::encode_utf8(id);
    assert forall|i: int| 0 <= i < b.len() implies #[trigger] is_hex_byte(b[i]) by {
        assert(id[i] as u8 == b[i]);
    }
}

} // verus!
