//! The icon of the program: a white letter T on a blue square.

use vstd::prelude::*;

verus! {

/// The width and the height of the icon.
pub const ICON_SIZE: usize = 32;

/// Whether a point belongs to the letter, counted from the top left corner.
pub open spec fn in_letter(x: int, y: int) -> bool {
    ||| 5 <= y <= 9 && 6 <= x <= 25
    ||| 5 <= y <= 26 && 13 <= x <= 18
}

/// Blue, green, red and opacity of a point.
pub open spec fn icon_color(x: int, y: int) -> Seq<u8> {
    if in_letter(x, y) {
        seq![0xffu8, 0xff, 0xff, 0xff]
    } else {
        seq![0xd2u8, 0x76, 0x19, 0xff]
    }
}

/// The bytes of the picture: four for a point, row by row from the bottom up.
pub open spec fn icon_bytes() -> Seq<u8> {
    Seq::new(
        (ICON_SIZE * ICON_SIZE * 4) as nat,
        |i: int| icon_color((i / 4) % 32, 31 - i / 128)[i % 4],
    )
}

/// Whether a point belongs to the letter.
pub fn is_letter_t(x: usize, y: usize) -> (r: bool)
    ensures
        r == in_letter(x as int, y as int),
{
    let top_bar: bool = y >= 5 && y <= 9 && x >= 6 && x <= 25;
    let stem: bool = y >= 5 && y <= 26 && x >= 13 && x <= 18;
    top_bar || stem
}

/// The bytes of the picture.
pub fn icon_pixels() -> (pixels: Vec<u8>)
    ensures
        pixels@ == icon_bytes(),
{
    let mut pixels: Vec<u8> = Vec::new();
    let mut row: usize = 0;
    while row < ICON_SIZE
        invariant
            row <= ICON_SIZE,
            pixels@.len() == row * 128,
            forall|i: int| 0 <= i < pixels@.len() ==> pixels@[i] == icon_bytes()[i],
        decreases ICON_SIZE - row,
    {
        let y: usize = ICON_SIZE - 1 - row;
        let mut x: usize = 0;
        while x < ICON_SIZE
            invariant
                row < ICON_SIZE,
                y == ICON_SIZE - 1 - row,
                x <= ICON_SIZE,
                pixels@.len() == row * 128 + x * 4,
                forall|i: int| 0 <= i < pixels@.len() ==> pixels@[i] == icon_bytes()[i],
            decreases ICON_SIZE - x,
        {
            let ghost color = icon_color(x as int, y as int);
            let ghost at = pixels@.len() as int;
            if is_letter_t(x, y) {
                pixels.push(0xff);
                pixels.push(0xff);
                pixels.push(0xff);
                pixels.push(0xff);
            } else {
                pixels.push(0xd2);
                pixels.push(0x76);
                pixels.push(0x19);
                pixels.push(0xff);
            }
            assert forall|i: int| 0 <= i < pixels@.len() implies pixels@[i] == icon_bytes()[i] by {
                if i >= at {
                    assert((i / 4) % 32 == x && 31 - i / 128 == y && i % 4 == i - at);
                    assert(pixels@[i] == color[i - at]);
                }
            }
            x += 1;
        }
        row += 1;
    }
    assert(pixels@ =~= icon_bytes());
    pixels
}

/// The mask that leaves every point of the picture opaque.
pub fn icon_mask() -> (mask: Vec<u8>)
    ensures
        mask@ == Seq::new(128, |i: int| 0u8),
{
    let mut mask: Vec<u8> = Vec::new();
    while mask.len() < 128
        invariant
            mask@.len() <= 128,
            mask@ =~= Seq::new(mask@.len(), |i: int| 0u8),
        decreases 128 - mask.len(),
    {
        mask.push(0);
    }
    mask
}

/// `n` as four bytes, the low one first.
pub open spec fn little_endian(n: int) -> Seq<u8> {
    seq![
        (n % 256) as u8,
        (n / 256 % 256) as u8,
        (n / 65536 % 256) as u8,
        (n / 16777216 % 256) as u8,
    ]
}

/// `n` as two bytes, the low one first.
pub open spec fn little_endian_16(n: int) -> Seq<u8> {
    seq![(n % 256) as u8, (n / 256 % 256) as u8]
}

/// The bytes of the picture with its own header: 40 bytes, the points and the mask.
pub open spec fn image_len() -> int {
    (40 + 32 * 32 * 4 + 128) as int
}

/// What stands in front of the points in an icon file: one picture of 32 by 32 points with 32 bits
/// each.
pub open spec fn icon_file_head() -> Seq<u8> {
    little_endian_16(0) + little_endian_16(1) + little_endian_16(1)
        + seq![32u8, 32, 0, 0] + little_endian_16(1) + little_endian_16(32) + little_endian(
        image_len(),
    ) + little_endian(22) + little_endian(40) + little_endian(32) + little_endian(64)
        + little_endian_16(1) + little_endian_16(32) + little_endian(0) + little_endian(0)
        + little_endian(0) + little_endian(0) + little_endian(0) + little_endian(0)
}

fn push_u16(v: &mut Vec<u8>, n: u16)
    ensures
        final(v)@ == old(v)@ + little_endian_16(n as int),
{
    v.push((n % 256) as u8);
    v.push((n / 256 % 256) as u8);
    assert(v@ =~= old(v)@ + little_endian_16(n as int));
}

fn push_u32(v: &mut Vec<u8>, n: u32)
    ensures
        final(v)@ == old(v)@ + little_endian(n as int),
{
    v.push((n % 256) as u8);
    v.push((n / 256 % 256) as u8);
    v.push((n / 65536 % 256) as u8);
    v.push((n / 16777216 % 256) as u8);
    assert(v@ =~= old(v)@ + little_endian(n as int));
}

/// The icon as a file.
pub fn generate_icon() -> (data: Vec<u8>)
    ensures
        data@ == icon_file_head() + icon_bytes() + Seq::new(128, |i: int| 0u8),
{
    let mut data: Vec<u8> = Vec::new();
    push_u16(&mut data, 0);
    push_u16(&mut data, 1);
    push_u16(&mut data, 1);
    let ghost start = data@;
    data.push(32);
    data.push(32);
    data.push(0);
    data.push(0);
    assert(data@ =~= start + seq![32u8, 32, 0, 0]);
    push_u16(&mut data, 1);
    push_u16(&mut data, 32);
    push_u32(&mut data, 40 + 32 * 32 * 4 + 128);
    push_u32(&mut data, 22);
    push_u32(&mut data, 40);
    push_u32(&mut data, 32);
    push_u32(&mut data, 64);
    push_u16(&mut data, 1);
    push_u16(&mut data, 32);
    push_u32(&mut data, 0);
    push_u32(&mut data, 0);
    push_u32(&mut data, 0);
    push_u32(&mut data, 0);
    push_u32(&mut data, 0);
    push_u32(&mut data, 0);
    assert(data@ =~= icon_file_head());
    let pixels: Vec<u8> = icon_pixels();
    let mask: Vec<u8> = icon_mask();
    crate::text::append_bytes(&mut data, pixels.as_slice());
    crate::text::append_bytes(&mut data, mask.as_slice());
    data
}

// ---------------------------------------------------------------------------
// Laws
// ---------------------------------------------------------------------------

/// The letter is the same from both sides.
pub proof fn law_letter_is_symmetric(x: int, y: int)
    ensures
        in_letter(x, y) == in_letter(31 - x, y),
{
}

/// The picture holds a point `x` from the left and `y` from the top, white in the letter and blue
/// around it, with the bottom row first.
pub proof fn law_icon_point(x: int, y: int)
    requires
        0 <= x < 32,
        0 <= y < 32,
    ensures
        ({
            let at = 4 * (32 * (31 - y) + x);
            let letter = (5 <= y < 10 && 6 <= x < 26) || (5 <= y < 27 && 13 <= x < 19);
            &&& icon_bytes().len() == 4 * 32 * 32
            &&& icon_bytes()[at] == if letter {
                255
            } else {
                210int
            }
            &&& icon_bytes()[at + 1] == if letter {
                255
            } else {
                118int
            }
            &&& icon_bytes()[at + 2] == if letter {
                255
            } else {
                25int
            }
            &&& icon_bytes()[at + 3] == 255
        }),
{
    let at = 4 * (32 * (31 - y) + x);
    assert(0 <= at && at + 3 < 4096);
    assert(at / 128 == 31 - y && (at + 1) / 128 == 31 - y && (at + 2) / 128 == 31 - y && (at + 3) / 128
        == 31 - y);
    assert((at / 4) % 32 == x && ((at + 1) / 4) % 32 == x && ((at + 2) / 4) % 32 == x && ((at + 3) / 4)
        % 32 == x);
    assert(at % 4 == 0 && (at + 1) % 4 == 1 && (at + 2) % 4 == 2 && (at + 3) % 4 == 3);
}

/// The bytes of a number, the low one first, make it up.
pub proof fn law_little_endian(n: int)
    requires
        0 <= n < 0x1_0000_0000,
    ensures
        little_endian(n).len() == 4,
        little_endian(n)[0] + 256 * little_endian(n)[1] + 65536 * little_endian(n)[2] + 16777216
            * little_endian(n)[3] == n,
        n < 65536 ==> little_endian_16(n).len() == 2 && little_endian_16(n)[0] + 256
            * little_endian_16(n)[1] == n,
{
}

/// An icon file begins with one picture of 32 by 32 points, its length and where it stands.
pub proof fn law_icon_file_head()
    ensures
        icon_file_head() == seq![
            0u8, 0, 1, 0, 1, 0, 32, 32, 0, 0, 1, 0, 32, 0, 168, 16, 0, 0, 22, 0, 0, 0, 40, 0, 0, 0, 32, 0, 0,
            0, 64, 0, 0, 0, 1, 0, 32, 0, 0, 0, 0, 0, 0, 0, 0, 0, 0, 0, 0, 0, 0, 0, 0, 0, 0, 0, 0, 0, 0, 0, 0,
            0,
        ],
{
    assert(image_len() == 4264);
    assert(icon_file_head() =~= seq![
        0u8, 0, 1, 0, 1, 0, 32, 32, 0, 0, 1, 0, 32, 0, 168, 16, 0, 0, 22, 0, 0, 0, 40, 0, 0, 0, 32, 0, 0, 0,
        64, 0, 0, 0, 1, 0, 32, 0, 0, 0, 0, 0, 0, 0, 0, 0, 0, 0, 0, 0, 0, 0, 0, 0, 0, 0, 0, 0, 0, 0, 0, 0,
    ]);
}

} // verus!
