use vstd::prelude::*;

verus! {

/// Width and height, in pixels, of a display's canvas.
pub const CANVAS_SIZE: u32 = 64;

/// How many distinct picture identifiers the display cycles through.
pub const PIC_ID_RANGE: u64 = 10000;

/// The padded, standard-alphabet base64 text of `bytes`.
pub uninterp spec fn standard_base64(bytes: Seq<u8>) -> Seq<char>;

/// Relies on `base64::Engine::encode` with the `STANDARD` engine: padded
/// base64 of the bytes, four characters for each started group of three.
/// It panics where that length overflows `usize`, which the bound excludes.
#[verifier::external_body]
fn encode_base64(bytes: &[u8]) -> (r: String)
    requires
        bytes@.len() <= usize::MAX / 2,
    ensures
        r@ == standard_base64(bytes@),
        r@.len() == 4 * ((bytes@.len() + 2) / 3),
{
    base64::Engine::encode(&base64::engine::general_purpose::STANDARD, bytes)
}

/// The command that shows one raw RGB frame on a display.
pub struct PushCommand {
    pub command: String,
    pub pic_num: u32,
    pub pic_width: u32,
    pub pic_offset: u32,
    pub pic_id: u64,
    pub pic_speed: u32,
    pub pic_data: String,
}

/// The address that commands for the display at `ip` are posted to.
pub fn url(ip: &str) -> (r: String)
    ensures
        r@ == "http://"@ + ip@ + "/post"@,
{
    let mut r = String::from_str("http://");
    r.append(ip);
    r.append("/post");
    r
}

/// The picture identifier for a frame sent `unix_secs` seconds after the
/// Unix epoch.
pub fn pic_id_for(unix_secs: u64) -> (r: u64)
    ensures
        r == unix_secs % PIC_ID_RANGE,
{
    unix_secs % PIC_ID_RANGE
}

/// The command that shows the frame `rgb` (row-major RGB bytes of a
/// `CANVAS_SIZE` square) as a single picture, sent at `unix_secs`.
pub fn push_command(rgb: &[u8], unix_secs: u64) -> (r: PushCommand)
    requires
        rgb@.len() <= usize::MAX / 2,
    ensures
        r.command@ == "Draw/SendHttpGif"@,
        r.pic_num == 1,
        r.pic_width == CANVAS_SIZE,
        r.pic_offset == 0,
        r.pic_id == unix_secs % PIC_ID_RANGE,
        r.pic_speed == 1000,
        r.pic_data@ == standard_base64(rgb@),
{
    PushCommand {
        command: String::from_str("Draw/SendHttpGif"),
        pic_num: 1,
        pic_width: CANVAS_SIZE,
        pic_offset: 0,
        pic_id: pic_id_for(unix_secs),
        pic_speed: 1000,
        pic_data: encode_base64(rgb),
    }
}

} // verus!
