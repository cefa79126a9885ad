use vstd::prelude::*;
use vstd::bytes::{
    spec_u32_from_le_bytes,
    spec_u32_to_le_bytes,
    u32_from_le_bytes,
    u32_to_le_bytes,
    lemma_auto_spec_u32_to_from_le_bytes,
    spec_u64_from_le_bytes,
    spec_u64_to_le_bytes,
    u64_from_le_bytes,
    u64_to_le_bytes,
    lemma_auto_spec_u64_to_from_le_bytes,
};

verus! {

pub const MAGIC_BYTES: [u8; 4] = [67u8, 84u8, 65u8, 83u8];

pub const HEADER_SIZE: usize = 0x400;

pub const PADDING_SIZE_V1_5: usize = 1000;

/// The state of one button during one frame.
#[derive(Clone, Copy, Debug, PartialEq, Eq, Structural, PartialOrd, Ord, Hash)]
pub struct ButtonPress {
    pub held: bool,
    pub pressed: bool,
    pub released: bool,
}

impl Default for ButtonPress {
    fn default() -> (b: Self)
        ensures
            b == (ButtonPress { held: false, pressed: false, released: false }),
    {
        ButtonPress { held: false, pressed: false, released: false }
    }
}

/// The 3-bit code of a button: bit 0 held, bit 1 pressed, bit 2 released.
#[verifier::opaque]
pub open spec fn button_bits(b: ButtonPress) -> u8 {
    ((if b.held { 1int } else { 0 }) + (if b.pressed { 2int } else { 0 }) + (if b.released {
        4int
    } else {
        0
    })) as u8
}

/// The button described by the low three bits of `byte`.
#[verifier::opaque]
pub open spec fn button_from_bits(byte: u8) -> ButtonPress {
    ButtonPress { held: byte & 1 != 0, pressed: byte & 2 != 0, released: byte & 4 != 0 }
}

proof fn lemma_bits_split(x: u8)
    requires
        x < 8,
    ensures
        x == (x & 1) + (x & 2) + (x & 4),
        (x & 1) == 0 || (x & 1) == 1,
        (x & 2) == 0 || (x & 2) == 2,
        (x & 4) == 0 || (x & 4) == 4,
{
    assert(x < 8 ==> x == (x & 1) + (x & 2) + (x & 4)) by (bit_vector);
    assert((x & 1) == 0 || (x & 1) == 1) by (bit_vector);
    assert((x & 2) == 0 || (x & 2) == 2) by (bit_vector);
    assert((x & 4) == 0 || (x & 4) == 4) by (bit_vector);
}

/// Decoding a button's code gives back the button.
pub proof fn lemma_button_bits_roundtrip(b: ButtonPress)
    ensures
        button_bits(b) < 8,
        button_from_bits(button_bits(b)) == b,
{
    reveal(button_bits);
    reveal(button_from_bits);
    let x = button_bits(b);
    lemma_bits_split(x);
    assert((1u8 & 1) != 0 && (1u8 & 2) == 0 && (1u8 & 4) == 0) by (bit_vector);
    assert((2u8 & 1) == 0 && (2u8 & 2) != 0 && (2u8 & 4) == 0) by (bit_vector);
    assert((3u8 & 1) != 0 && (3u8 & 2) != 0 && (3u8 & 4) == 0) by (bit_vector);
    assert((4u8 & 1) == 0 && (4u8 & 2) == 0 && (4u8 & 4) != 0) by (bit_vector);
    assert((5u8 & 1) != 0 && (5u8 & 2) == 0 && (5u8 & 4) != 0) by (bit_vector);
    assert((6u8 & 1) == 0 && (6u8 & 2) != 0 && (6u8 & 4) != 0) by (bit_vector);
    assert((7u8 & 1) != 0 && (7u8 & 2) != 0 && (7u8 & 4) != 0) by (bit_vector);
    assert((0u8 & 1) == 0 && (0u8 & 2) == 0 && (0u8 & 4) == 0) by (bit_vector);
}

/// Encoding the button decoded from a 3-bit code gives back the code.
pub proof fn lemma_button_code_roundtrip(x: u8)
    requires
        x < 8,
    ensures
        button_bits(button_from_bits(x)) == x,
{
    reveal(button_bits);
    reveal(button_from_bits);
    lemma_bits_split(x);
}

impl ButtonPress {
    /// Decodes a button from its 3-bit code.
    pub fn from_byte(byte: u8) -> (r: Result<Self, ()>)
        requires
            byte < 8,
        ensures
            r == Ok::<ButtonPress, ()>(button_from_bits(byte)),
    {
        reveal(button_from_bits);
        Ok(Self { held: (byte & 1) != 0, pressed: (byte & 2) != 0, released: (byte & 4) != 0 })
    }

    /// Encodes this button as its 3-bit code.
    pub fn to_byte(&self) -> (byte: u8)
        ensures
            byte == button_bits(*self),
            byte < 8,
    {
        reveal(button_bits);
        let h: u8 = if self.held { 1 } else { 0 };
        let p: u8 = if self.pressed { 1 } else { 0 };
        let r: u8 = if self.released { 1 } else { 0 };
        assert(h <= 1 && p <= 1 && r <= 1 ==> (h | (p << 1u8) | (r << 2u8)) == h + 2 * p + 4 * r)
            by (bit_vector);
        h | (p << 1) | (r << 2)
    }
}


/// The buttons of one player during one frame.
#[derive(Clone, Copy, Debug, PartialEq, Eq, Structural, PartialOrd, Ord, Hash)]
pub struct PlayerInput {
    pub up: ButtonPress,
    pub down: ButtonPress,
    pub left: ButtonPress,
    pub right: ButtonPress,
    pub action1: ButtonPress,
    pub action2: ButtonPress,
    pub start_pressed: bool,
}

/// The all-released button.
pub open spec fn no_button() -> ButtonPress {
    ButtonPress { held: false, pressed: false, released: false }
}

/// The input of a player who touches nothing.
pub open spec fn no_player_input() -> PlayerInput {
    PlayerInput {
        up: no_button(),
        down: no_button(),
        left: no_button(),
        right: no_button(),
        action1: no_button(),
        action2: no_button(),
        start_pressed: false,
    }
}

impl Default for PlayerInput {
    fn default() -> (p: Self)
        ensures
            p == no_player_input(),
    {
        PlayerInput {
            up: ButtonPress::default(),
            down: ButtonPress::default(),
            left: ButtonPress::default(),
            right: ButtonPress::default(),
            action1: ButtonPress::default(),
            action2: ButtonPress::default(),
            start_pressed: false,
        }
    }
}

/// The 19-bit word of a player's input: six 3-bit button codes (up, down,
/// left, right, action 1, action 2) from the low bits, then the start bit.
#[verifier::opaque]
pub open spec fn player_word(p: PlayerInput) -> u32 {
    (button_bits(p.up) + 8 * button_bits(p.down) + 64 * button_bits(p.left) + 512 * button_bits(
        p.right,
    ) + 4096 * button_bits(p.action1) + 32768 * button_bits(p.action2) + (if p.start_pressed {
        262144int
    } else {
        0
    })) as u32
}

/// The player input described by a word whose bits above 18 are clear.
#[verifier::opaque]
pub open spec fn player_from_word(val: u32) -> PlayerInput {
    PlayerInput {
        up: button_from_bits((val & 7) as u8),
        down: button_from_bits(((val >> 3u32) & 7) as u8),
        left: button_from_bits(((val >> 6u32) & 7) as u8),
        right: button_from_bits(((val >> 9u32) & 7) as u8),
        action1: button_from_bits(((val >> 12u32) & 7) as u8),
        action2: button_from_bits(((val >> 15u32) & 7) as u8),
        start_pressed: (val >> 18u32) != 0,
    }
}

proof fn lemma_word_fields(a: u32, b: u32, c: u32, d: u32, e: u32, f: u32, g: u32)
    requires
        a < 8,
        b < 8,
        c < 8,
        d < 8,
        e < 8,
        f < 8,
        g < 2,
    ensures
        ({
            let w = (a + 8 * b + 64 * c + 512 * d + 4096 * e + 32768 * f + 262144 * g) as u32;
            &&& w < 0x80000
            &&& w & 7 == a
            &&& (w >> 3u32) & 7 == b
            &&& (w >> 6u32) & 7 == c
            &&& (w >> 9u32) & 7 == d
            &&& (w >> 12u32) & 7 == e
            &&& (w >> 15u32) & 7 == f
            &&& (w >> 18u32) == g
            &&& w == a | (b << 3u32) | (c << 6u32) | (d << 9u32) | (e << 12u32) | (f << 15u32) | (g
                << 18u32)
        }),
{
    let w = (a + 8 * b + 64 * c + 512 * d + 4096 * e + 32768 * f + 262144 * g) as u32;
    assert(w == a + 8 * b + 64 * c + 512 * d + 4096 * e + 32768 * f + 262144 * g);
    assert(a < 8 && b < 8 && c < 8 && d < 8 && e < 8 && f < 8 && g < 2 && w == a + 8 * b + 64 * c
        + 512 * d + 4096 * e + 32768 * f + 262144 * g ==> {
        &&& w < 0x80000
        &&& w & 7 == a
        &&& (w >> 3u32) & 7 == b
        &&& (w >> 6u32) & 7 == c
        &&& (w >> 9u32) & 7 == d
        &&& (w >> 12u32) & 7 == e
        &&& (w >> 15u32) & 7 == f
        &&& (w >> 18u32) == g
        &&& w == a | (b << 3u32) | (c << 6u32) | (d << 9u32) | (e << 12u32) | (f << 15u32) | (g
            << 18u32)
    }) by (bit_vector);
}

proof fn lemma_word_split(w: u32)
    requires
        w < 0x80000,
    ensures
        w == (w & 7) + 8 * ((w >> 3u32) & 7) + 64 * ((w >> 6u32) & 7) + 512 * ((w >> 9u32) & 7)
            + 4096 * ((w >> 12u32) & 7) + 32768 * ((w >> 15u32) & 7) + 262144 * (w >> 18u32),
        (w & 7) < 8,
        ((w >> 3u32) & 7) < 8,
        ((w >> 6u32) & 7) < 8,
        ((w >> 9u32) & 7) < 8,
        ((w >> 12u32) & 7) < 8,
        ((w >> 15u32) & 7) < 8,
        (w >> 18u32) < 2,
{
    assert(w < 0x80000 ==> w == (w & 7) + 8 * ((w >> 3u32) & 7) + 64 * ((w >> 6u32) & 7) + 512 * (
    (w >> 9u32) & 7) + 4096 * ((w >> 12u32) & 7) + 32768 * ((w >> 15u32) & 7) + 262144 * (w
        >> 18u32)) by (bit_vector);
    assert((w & 7) < 8 && ((w >> 3u32) & 7) < 8 && ((w >> 6u32) & 7) < 8 && ((w >> 9u32) & 7) < 8
        && ((w >> 12u32) & 7) < 8 && ((w >> 15u32) & 7) < 8) by (bit_vector);
    assert(w < 0x80000 ==> (w >> 18u32) < 2) by (bit_vector);
}

/// Decoding a player's word gives back the input; words have 19 bits.
#[verifier::spinoff_prover]
#[verifier::rlimit(40)]
pub proof fn lemma_player_word_roundtrip(p: PlayerInput)
    ensures
        player_word(p) < 0x80000,
        player_from_word(player_word(p)) == p,
{
    lemma_button_bits_roundtrip(p.up);
    lemma_button_bits_roundtrip(p.down);
    lemma_button_bits_roundtrip(p.left);
    lemma_button_bits_roundtrip(p.right);
    lemma_button_bits_roundtrip(p.action1);
    lemma_button_bits_roundtrip(p.action2);
    reveal(player_word);
    reveal(player_from_word);
    let a = button_bits(p.up) as u32;
    let b = button_bits(p.down) as u32;
    let c = button_bits(p.left) as u32;
    let d = button_bits(p.right) as u32;
    let e = button_bits(p.action1) as u32;
    let f = button_bits(p.action2) as u32;
    let g: u32 = if p.start_pressed { 1 } else { 0 };
    lemma_word_fields(a, b, c, d, e, f, g);
    let w = player_word(p);
    assert(w == (a + 8 * b + 64 * c + 512 * d + 4096 * e + 32768 * f + 262144 * g) as u32);
    assert(w & 7 == a);
    assert((w >> 3u32) & 7 == b);
    assert((w >> 6u32) & 7 == c);
    assert((w >> 9u32) & 7 == d);
    assert((w >> 12u32) & 7 == e);
    assert((w >> 15u32) & 7 == f);
    assert((w >> 18u32) == g);
    let q = player_from_word(w);
    assert(q.up == button_from_bits(button_bits(p.up)));
    assert(q.down == button_from_bits(button_bits(p.down)));
    assert(q.left == button_from_bits(button_bits(p.left)));
    assert(q.right == button_from_bits(button_bits(p.right)));
    assert(q.action1 == button_from_bits(button_bits(p.action1)));
    assert(q.action2 == button_from_bits(button_bits(p.action2)));
    assert(q.start_pressed == p.start_pressed);
}

/// Encoding the input decoded from a 19-bit word gives back the word.
pub proof fn lemma_player_from_word_roundtrip(w: u32)
    requires
        w < 0x80000,
    ensures
        player_word(player_from_word(w)) == w,
{
    reveal(player_word);
    reveal(player_from_word);
    lemma_word_split(w);
    lemma_button_code_roundtrip((w & 7) as u8);
    lemma_button_code_roundtrip(((w >> 3u32) & 7) as u8);
    lemma_button_code_roundtrip(((w >> 6u32) & 7) as u8);
    lemma_button_code_roundtrip(((w >> 9u32) & 7) as u8);
    lemma_button_code_roundtrip(((w >> 12u32) & 7) as u8);
    lemma_button_code_roundtrip(((w >> 15u32) & 7) as u8);
}

/// The four little-endian bytes of `x`, as an array.
fn u32_le_array(x: u32) -> (bytes: [u8; 4])
    ensures
        bytes@ == spec_u32_to_le_bytes(x),
{
    proof {
        lemma_auto_spec_u32_to_from_le_bytes();
    }
    let v = u32_to_le_bytes(x);
    let bytes = [v[0], v[1], v[2], v[3]];
    assert(bytes@ =~= v@);
    bytes
}

impl PlayerInput {
    /// Decodes a player's input from the four little-endian bytes of its word.
    pub fn from_bytes(slice: [u8; 4]) -> (r: Result<Self, ()>)
        requires
            spec_u32_from_le_bytes(slice@) < 0x80000,
        ensures
            r == Ok::<PlayerInput, ()>(player_from_word(spec_u32_from_le_bytes(slice@))),
    {
        let val = u32_from_le_bytes(vstd::array::array_as_slice(&slice));
        assert(val < 0x80000 ==> val >> 19u32 == 0) by (bit_vector);
        Self::from_u32(val)
    }

    /// Decodes a player's input from its word; bits above 18 must be clear.
    pub fn from_u32(val: u32) -> (r: Result<Self, ()>)
        requires
            val >> 19u32 == 0,
        ensures
            r == Ok::<PlayerInput, ()>(player_from_word(val)),
    {
        reveal(player_from_word);
        assert(val & 7 < 8 && (val >> 3u32) & 7 < 8 && (val >> 6u32) & 7 < 8 && (val >> 9u32) & 7 < 8
            && (val >> 12u32) & 7 < 8 && (val >> 15u32) & 7 < 8) by (bit_vector);
        let up = ButtonPress::from_byte((val & 7) as u8)?;
        let down = ButtonPress::from_byte(((val >> 3) & 7) as u8)?;
        let left = ButtonPress::from_byte(((val >> 6) & 7) as u8)?;
        let right = ButtonPress::from_byte(((val >> 9) & 7) as u8)?;
        let action1 = ButtonPress::from_byte(((val >> 12) & 7) as u8)?;
        let action2 = ButtonPress::from_byte(((val >> 15) & 7) as u8)?;
        Ok(Self { up, down, left, right, action1, action2, start_pressed: (val >> 18) != 0 })
    }

    /// Encodes this input as the four little-endian bytes of its word.
    pub fn to_bytes(&self) -> (bytes: [u8; 4])
        ensures
            bytes@ == spec_u32_to_le_bytes(player_word(*self)),
    {
        let mut val = 0u32;
        val = val | self.up.to_byte() as u32;
        val = val | (self.down.to_byte() as u32) << 3;
        val = val | (self.left.to_byte() as u32) << 6;
        val = val | (self.right.to_byte() as u32) << 9;
        val = val | (self.action1.to_byte() as u32) << 12;
        val = val | (self.action2.to_byte() as u32) << 15;
        let start: u32 = if self.start_pressed { 1 } else { 0 };
        val = val | start << 18;
        proof {
            reveal(player_word);
            let a = button_bits(self.up) as u32;
            assert((0u32 | a) == a) by (bit_vector);
            lemma_word_fields(
                a,
                button_bits(self.down) as u32,
                button_bits(self.left) as u32,
                button_bits(self.right) as u32,
                button_bits(self.action1) as u32,
                button_bits(self.action2) as u32,
                start,
            );
        }
        u32_le_array(val)
    }
}


/// The inputs of both players during one frame.
#[derive(Clone, Copy, Debug, PartialEq, Eq, Structural, PartialOrd, Ord, Hash)]
pub struct Input {
    pub p1: PlayerInput,
    pub p2: PlayerInput,
}

/// The frame on which nobody touches anything.
pub open spec fn no_input() -> Input {
    Input { p1: no_player_input(), p2: no_player_input() }
}

impl Default for Input {
    fn default() -> (i: Self)
        ensures
            i == no_input(),
    {
        Input { p1: PlayerInput::default(), p2: PlayerInput::default() }
    }
}

/// The eight bytes of a frame: player 1's word, then player 2's, little-endian.
pub open spec fn input_bytes(i: Input) -> Seq<u8> {
    spec_u32_to_le_bytes(player_word(i.p1)) + spec_u32_to_le_bytes(player_word(i.p2))
}

/// In the empty frame no button of either player is held, pressed or
/// released, and nobody presses start.
pub proof fn lemma_empty_frame_is_idle()
    ensures
        no_input().p1.up == (ButtonPress { held: false, pressed: false, released: false }),
        no_input().p1.down == (ButtonPress { held: false, pressed: false, released: false }),
        no_input().p1.left == (ButtonPress { held: false, pressed: false, released: false }),
        no_input().p1.right == (ButtonPress { held: false, pressed: false, released: false }),
        no_input().p1.action1 == (ButtonPress { held: false, pressed: false, released: false }),
        no_input().p1.action2 == (ButtonPress { held: false, pressed: false, released: false }),
        !no_input().p1.start_pressed,
        no_input().p2.up == (ButtonPress { held: false, pressed: false, released: false }),
        no_input().p2.down == (ButtonPress { held: false, pressed: false, released: false }),
        no_input().p2.left == (ButtonPress { held: false, pressed: false, released: false }),
        no_input().p2.right == (ButtonPress { held: false, pressed: false, released: false }),
        no_input().p2.action1 == (ButtonPress { held: false, pressed: false, released: false }),
        no_input().p2.action2 == (ButtonPress { held: false, pressed: false, released: false }),
        !no_input().p2.start_pressed,
{
}

/// The little-endian 32-bit word at byte offset `off`.
pub open spec fn word_at(b: Seq<u8>, off: int) -> u32 {
    spec_u32_from_le_bytes(b.subrange(off, off + 4))
}

/// The frame encoded by the eight bytes at offset `off`.
pub open spec fn input_at(b: Seq<u8>, off: int) -> Input {
    Input { p1: player_from_word(word_at(b, off)), p2: player_from_word(word_at(b, off + 4)) }
}

/// Whether both words of the frame at offset `off` leave the bits above 18 clear.
pub open spec fn input_words_fit(b: Seq<u8>, off: int) -> bool {
    word_at(b, off) < 0x80000 && word_at(b, off + 4) < 0x80000
}

impl Input {
    /// Decodes a frame from its eight bytes.
    pub fn from_bytes(slice: [u8; 8]) -> (r: Result<Self, ()>)
        requires
            input_words_fit(slice@, 0),
        ensures
            r == Ok::<Input, ()>(input_at(slice@, 0)),
    {
        let w1 = [slice[0], slice[1], slice[2], slice[3]];
        let w2 = [slice[4], slice[5], slice[6], slice[7]];
        assert(slice@.subrange(0, 4) =~= w1@);
        assert(slice@.subrange(4, 8) =~= w2@);
        let p1 = PlayerInput::from_bytes(w1);
        let p1 = match p1 {
            Ok(p) => p,
            Err(e) => {
                return Err(e);
            },
        };
        let p2 = PlayerInput::from_bytes(w2);
        let p2 = match p2 {
            Ok(p) => p,
            Err(e) => {
                return Err(e);
            },
        };
        Ok(Self { p1, p2 })
    }

    /// Encodes this frame as its eight bytes.
    pub fn to_bytes(&self) -> (bytes: [u8; 8])
        ensures
            bytes@ == input_bytes(*self),
    {
        let a = self.p1.to_bytes();
        let b = self.p2.to_bytes();
        let out = [a[0], a[1], a[2], a[3], b[0], b[1], b[2], b[3]];
        assert(out@ =~= a@ + b@);
        out
    }
}

/// A re-seeding of the game's random number generator at some frame.
/// The seed is a 64-bit float, carried here as its bit pattern; `==` and
/// `partial_cmp` compare it as that float (see `randomize_order`).
#[derive(Clone, Copy, Debug)]
pub struct Randomize {
    pub frame: u32,
    pub seed_bits: u64,
}

impl Default for Randomize {
    /// Frame 0, seed `0.0`.
    fn default() -> (r: Self)
        ensures
            r.frame == 0,
            r.seed_bits == 0,
    {
        Randomize { frame: 0, seed_bits: 0 }
    }
}

/// The twelve bytes of a re-seeding: the frame, then the seed, little-endian.
pub open spec fn randomize_bytes(r: Randomize) -> Seq<u8> {
    spec_u32_to_le_bytes(r.frame) + spec_u64_to_le_bytes(r.seed_bits)
}

/// The re-seeding encoded by the twelve bytes at offset `off`.
pub open spec fn randomize_at(b: Seq<u8>, off: int) -> Randomize {
    Randomize {
        frame: word_at(b, off),
        seed_bits: spec_u64_from_le_bytes(b.subrange(off + 4, off + 12)),
    }
}

/// The eight little-endian bytes of `x`, as an array.
fn u64_le_array(x: u64) -> (bytes: [u8; 8])
    ensures
        bytes@ == spec_u64_to_le_bytes(x),
{
    proof {
        lemma_auto_spec_u64_to_from_le_bytes();
    }
    let v = u64_to_le_bytes(x);
    let bytes = [v[0], v[1], v[2], v[3], v[4], v[5], v[6], v[7]];
    assert(bytes@ =~= v@);
    bytes
}

impl Randomize {
    /// Decodes a re-seeding from its twelve bytes.
    pub fn from_bytes(slice: [u8; 12]) -> (r: Result<Self, ()>)
        ensures
            r == Ok::<Randomize, ()>(randomize_at(slice@, 0)),
    {
        let s = vstd::array::array_as_slice(&slice);
        let frame = u32_from_le_bytes(vstd::slice::slice_subrange(s, 0, 4));
        let seed_bits = u64_from_le_bytes(vstd::slice::slice_subrange(s, 4, 12));
        Ok(Self { frame, seed_bits })
    }

    /// Encodes this re-seeding as its twelve bytes.
    pub fn to_bytes(&self) -> (bytes: [u8; 12])
        ensures
            bytes@ == randomize_bytes(*self),
    {
        let a = u32_le_array(self.frame);
        let b = u64_le_array(self.seed_bits);
        let out = [a[0], a[1], a[2], a[3], b[0], b[1], b[2], b[3], b[4], b[5], b[6], b[7]];
        assert(out@ =~= a@ + b@);
        out
    }
}


/// Why a byte string is not a CTAS movie.
#[derive(Debug)]
pub enum CtasParseError {
    InsufficientLength(usize),
    BadMagicNumber([u8; 4]),
    UnsupportedVersion(u32),
    BadInputLength(i32),
    BadRandomizeLength(i32),
    BodyLengthMismatch { expected: usize, actual: usize },
    RandomizeUnsorted { read: Vec<Randomize> },
    BadPadding,
    BadInput(()),
    BadRandomize(()),
}

/// A CTAS movie: per-frame inputs plus the frames at which the game is re-seeded.
#[derive(Clone, Debug, PartialEq, PartialOrd)]
pub struct Ctas {
    pub version_number: u32,
    pub inputs: Vec<Input>,
    pub randomizes: Vec<Randomize>,
    /// 0 on v1.4
    pub num_rerecords: u32,
    /// 0 on v1.5
    pub timer: u32,
}

/// The number of frames recorded in a movie's header.
pub open spec fn header_num_inputs(b: Seq<u8>) -> int {
    word_at(b, 8) as int
}

/// The number of re-seedings recorded in a movie's header.
pub open spec fn header_num_randomizes(b: Seq<u8>) -> int {
    word_at(b, 12) as int
}

/// Where the re-seedings start.
pub open spec fn randomizes_offset(b: Seq<u8>) -> int {
    HEADER_SIZE + 8 * header_num_inputs(b)
}

/// The frames stored in a movie's body.
pub open spec fn decoded_inputs(b: Seq<u8>) -> Seq<Input> {
    Seq::new(header_num_inputs(b) as nat, |k: int| input_at(b, HEADER_SIZE + 8 * k))
}

/// The re-seedings stored in a movie's body.
pub open spec fn decoded_randomizes(b: Seq<u8>) -> Seq<Randomize> {
    Seq::new(
        header_num_randomizes(b) as nat,
        |k: int| randomize_at(b, randomizes_offset(b) + 12 * k),
    )
}

pub open spec fn header_fields_ok(b: Seq<u8>) -> bool {
    &&& b.len() >= HEADER_SIZE
    &&& b.subrange(0, 4) == MAGIC_BYTES@
    &&& (word_at(b, 4) == 3 || word_at(b, 4) == 4)
    &&& word_at(b, 8) < 0x8000_0000
    &&& word_at(b, 12) < 0x8000_0000
}

pub open spec fn padding_ok(b: Seq<u8>) -> bool {
    forall|i: int| 24 <= i < HEADER_SIZE ==> #[trigger] b[i] == 0
}

pub open spec fn body_length_ok(b: Seq<u8>) -> bool {
    8 * header_num_inputs(b) + 12 * header_num_randomizes(b) == b.len() - HEADER_SIZE
}

/// The error reported for byte string `b`, or `None` when it is a movie.
pub open spec fn ctas_error(b: Seq<u8>) -> Option<CtasParseError> {
    if b.len() < HEADER_SIZE {
        Some(CtasParseError::InsufficientLength(b.len() as usize))
    } else if b.subrange(0, 4) != MAGIC_BYTES@ {
        Some(CtasParseError::BadMagicNumber([b[0], b[1], b[2], b[3]]))
    } else if !(word_at(b, 4) == 3 || word_at(b, 4) == 4) {
        Some(CtasParseError::UnsupportedVersion(word_at(b, 4)))
    } else if word_at(b, 8) >= 0x8000_0000 {
        Some(CtasParseError::BadInputLength(word_at(b, 8) as i32))
    } else if word_at(b, 12) >= 0x8000_0000 {
        Some(CtasParseError::BadInputLength(word_at(b, 12) as i32))
    } else if !padding_ok(b) {
        Some(CtasParseError::BadPadding)
    } else if !body_length_ok(b) {
        Some(
            CtasParseError::BodyLengthMismatch {
                expected: (8 * header_num_inputs(b) + 12 * header_num_randomizes(b)) as usize,
                actual: (b.len() - HEADER_SIZE) as usize,
            },
        )
    } else {
        None
    }
}

/// Whether reading `b` hits one of the checks that abort instead of reporting
/// an error: a version-3 movie with rerecords or a timer, or a frame word with
/// bits above 18 set.
pub open spec fn ctas_aborts(b: Seq<u8>) -> bool {
    &&& header_fields_ok(b)
    &&& {
        ||| word_at(b, 4) == 3 && (word_at(b, 16) != 0 || word_at(b, 20) != 0)
        ||| padding_ok(b) && body_length_ok(b) && exists|k: int|
            0 <= k < header_num_inputs(b) && !#[trigger] frame_fits(b, k)
    }
}

/// Whether the words of frame `k` of the body leave the bits above 18 clear.
pub open spec fn frame_fits(b: Seq<u8>, k: int) -> bool {
    input_words_fit(b, HEADER_SIZE + 8 * k)
}

/// The bytes of the header of a movie with the given fields.
pub open spec fn header_bytes(
    version: u32,
    num_inputs: int,
    num_randomizes: int,
    rerecords: u32,
    timer: u32,
) -> Seq<u8> {
    MAGIC_BYTES@ + spec_u32_to_le_bytes(version) + spec_u32_to_le_bytes(num_inputs as u32)
        + spec_u32_to_le_bytes(num_randomizes as u32) + spec_u32_to_le_bytes(rerecords)
        + spec_u32_to_le_bytes(timer) + Seq::new(PADDING_SIZE_V1_5 as nat, |i: int| 0u8)
}

/// The frames of a movie, eight bytes each.
pub open spec fn inputs_bytes(s: Seq<Input>) -> Seq<u8>
    decreases s.len(),
{
    if s.len() == 0 {
        seq![]
    } else {
        inputs_bytes(s.drop_last()) + input_bytes(s.last())
    }
}

/// The re-seedings of a movie, twelve bytes each.
pub open spec fn randomizes_bytes(s: Seq<Randomize>) -> Seq<u8>
    decreases s.len(),
{
    if s.len() == 0 {
        seq![]
    } else {
        randomizes_bytes(s.drop_last()) + randomize_bytes(s.last())
    }
}

/// The bytes of a movie with the given fields.
pub open spec fn ctas_bytes(
    version: u32,
    inputs: Seq<Input>,
    randomizes: Seq<Randomize>,
    rerecords: u32,
    timer: u32,
) -> Seq<u8> {
    header_bytes(version, inputs.len() as int, randomizes.len() as int, rerecords, timer)
        + inputs_bytes(inputs) + randomizes_bytes(randomizes)
}

/// The little-endian 32-bit word at offset `off` of `b`.
fn read_u32(b: &[u8], off: usize) -> (w: u32)
    requires
        off + 4 <= b@.len(),
    ensures
        w == word_at(b@, off as int),
{
    let len = b.len();
    assert(off + 4 <= len);
    u32_from_le_bytes(vstd::slice::slice_subrange(b, off, off + 4))
}


#[verifier::spinoff_prover]
#[verifier::rlimit(30)]
proof fn lemma_inputs_bytes(s: Seq<Input>, k: int)
    requires
        0 <= k < s.len(),
    ensures
        inputs_bytes(s).len() == 8 * s.len(),
        inputs_bytes(s).subrange(8 * k, 8 * k + 8) == input_bytes(s[k]),
    decreases s.len(),
{
    lemma_inputs_bytes_len(s);
    let t = s.drop_last();
    lemma_inputs_bytes_len(t);
    lemma_auto_spec_u32_to_from_le_bytes();
    if k < s.len() - 1 {
        lemma_inputs_bytes(t, k);
        assert(inputs_bytes(s).subrange(8 * k, 8 * k + 8) =~= inputs_bytes(t).subrange(
            8 * k,
            8 * k + 8,
        ));
    } else {
        assert(inputs_bytes(s).subrange(8 * k, 8 * k + 8) =~= input_bytes(s.last()));
    }
}

proof fn lemma_inputs_bytes_len(s: Seq<Input>)
    ensures
        inputs_bytes(s).len() == 8 * s.len(),
    decreases s.len(),
{
    lemma_auto_spec_u32_to_from_le_bytes();
    if s.len() > 0 {
        lemma_inputs_bytes_len(s.drop_last());
    }
}

proof fn lemma_randomizes_bytes_len(s: Seq<Randomize>)
    ensures
        randomizes_bytes(s).len() == 12 * s.len(),
    decreases s.len(),
{
    lemma_auto_spec_u32_to_from_le_bytes();
    lemma_auto_spec_u64_to_from_le_bytes();
    if s.len() > 0 {
        lemma_randomizes_bytes_len(s.drop_last());
    }
}

proof fn lemma_randomizes_bytes(s: Seq<Randomize>, k: int)
    requires
        0 <= k < s.len(),
    ensures
        randomizes_bytes(s).len() == 12 * s.len(),
        randomizes_bytes(s).subrange(12 * k, 12 * k + 12) == randomize_bytes(s[k]),
    decreases s.len(),
{
    lemma_randomizes_bytes_len(s);
    let t = s.drop_last();
    lemma_randomizes_bytes_len(t);
    lemma_auto_spec_u32_to_from_le_bytes();
    lemma_auto_spec_u64_to_from_le_bytes();
    if k < s.len() - 1 {
        lemma_randomizes_bytes(t, k);
        assert(randomizes_bytes(s).subrange(12 * k, 12 * k + 12) =~= randomizes_bytes(t).subrange(
            12 * k,
            12 * k + 12,
        ));
    } else {
        assert(randomizes_bytes(s).subrange(12 * k, 12 * k + 12) =~= randomize_bytes(s.last()));
    }
}

/// The header fields that the bytes of a movie can carry: a supported
/// version, counts below 2^31, and no rerecords or timer in version 3.
pub open spec fn ctas_fields_valid(
    version: u32,
    inputs: Seq<Input>,
    randomizes: Seq<Randomize>,
    rerecords: u32,
    timer: u32,
) -> bool {
    &&& (version == 3 || version == 4)
    &&& inputs.len() < 0x8000_0000
    &&& randomizes.len() < 0x8000_0000
    &&& (version == 3 ==> rerecords == 0 && timer == 0)
}

/// Reading the bytes written for a movie gives back that movie.
pub proof fn lemma_read_written(
    version: u32,
    inputs: Seq<Input>,
    randomizes: Seq<Randomize>,
    rerecords: u32,
    timer: u32,
)
    requires
        ctas_fields_valid(version, inputs, randomizes, rerecords, timer),
    ensures
        ({
            let b = ctas_bytes(version, inputs, randomizes, rerecords, timer);
            &&& ctas_error(b) == None::<CtasParseError>
            &&& !ctas_aborts(b)
            &&& word_at(b, 4) == version
            &&& decoded_inputs(b) == inputs
            &&& decoded_randomizes(b) == randomizes
            &&& word_at(b, 16) == rerecords
            &&& word_at(b, 20) == timer
        }),
{
    lemma_auto_spec_u32_to_from_le_bytes();
    lemma_auto_spec_u64_to_from_le_bytes();
    let n = inputs.len() as int;
    let m = randomizes.len() as int;
    let h = header_bytes(version, n, m, rerecords, timer);
    let ib = inputs_bytes(inputs);
    let rb = randomizes_bytes(randomizes);
    let b = ctas_bytes(version, inputs, randomizes, rerecords, timer);
    lemma_inputs_bytes_len(inputs);
    lemma_randomizes_bytes_len(randomizes);
    assert(h.len() == HEADER_SIZE);
    assert(b.len() == HEADER_SIZE + 8 * n + 12 * m);
    assert(b.subrange(0, 4) =~= MAGIC_BYTES@);
    assert(b.subrange(4, 8) =~= spec_u32_to_le_bytes(version));
    assert(b.subrange(8, 12) =~= spec_u32_to_le_bytes(n as u32));
    assert(b.subrange(12, 16) =~= spec_u32_to_le_bytes(m as u32));
    assert(b.subrange(16, 20) =~= spec_u32_to_le_bytes(rerecords));
    assert(b.subrange(20, 24) =~= spec_u32_to_le_bytes(timer));
    assert(word_at(b, 8) == n as u32);
    assert(word_at(b, 12) == m as u32);
    assert(header_fields_ok(b));
    assert forall|i: int| 24 <= i < HEADER_SIZE implies #[trigger] b[i] == 0 by {
        assert(b[i] == h[i]);
    }
    assert(body_length_ok(b));
    assert forall|k: int| 0 <= k < n implies #[trigger] frame_fits(b, k) && input_at(
        b,
        HEADER_SIZE + 8 * k,
    ) == inputs[k] by {
        lemma_inputs_bytes(inputs, k);
        let off = HEADER_SIZE + 8 * k;
        let ik = input_bytes(inputs[k]);
        assert(b.subrange(off, off + 8) =~= ib.subrange(8 * k, 8 * k + 8));
        assert(b.subrange(off, off + 4) =~= b.subrange(off, off + 8).subrange(0, 4));
        assert(b.subrange(off + 4, off + 8) =~= b.subrange(off, off + 8).subrange(4, 8));
        assert(ik.subrange(0, 4) =~= spec_u32_to_le_bytes(player_word(inputs[k].p1)));
        assert(ik.subrange(4, 8) =~= spec_u32_to_le_bytes(player_word(inputs[k].p2)));
        lemma_player_word_roundtrip(inputs[k].p1);
        lemma_player_word_roundtrip(inputs[k].p2);
    }
    assert forall|k: int| 0 <= k < n implies input_at(b, HEADER_SIZE + 8 * k) == #[trigger] inputs[k] by {
        assert(frame_fits(b, k));
    }
    assert(decoded_inputs(b) =~= inputs);
    assert forall|k: int| 0 <= k < m implies randomize_at(b, randomizes_offset(b) + 12 * k)
        == #[trigger] randomizes[k] by {
        lemma_randomizes_bytes(randomizes, k);
        let off = HEADER_SIZE + 8 * n + 12 * k;
        let rk = randomize_bytes(randomizes[k]);
        assert(b.subrange(off, off + 12) =~= rb.subrange(12 * k, 12 * k + 12));
        assert(b.subrange(off, off + 4) =~= b.subrange(off, off + 12).subrange(0, 4));
        assert(b.subrange(off + 4, off + 12) =~= b.subrange(off, off + 12).subrange(4, 12));
        assert(rk.subrange(0, 4) =~= spec_u32_to_le_bytes(randomizes[k].frame));
        assert(rk.subrange(4, 12) =~= spec_u64_to_le_bytes(randomizes[k].seed_bits));
    }
    assert(decoded_randomizes(b) =~= randomizes);
}

proof fn lemma_decoded_inputs_bytes(b: Seq<u8>, k: int)
    requires
        header_fields_ok(b),
        padding_ok(b),
        body_length_ok(b),
        !ctas_aborts(b),
        0 <= k <= header_num_inputs(b),
    ensures
        inputs_bytes(decoded_inputs(b).take(k)) == b.subrange(HEADER_SIZE as int, HEADER_SIZE + 8 * k),
    decreases k,
{
    lemma_auto_spec_u32_to_from_le_bytes();
    let s = decoded_inputs(b).take(k);
    if k == 0 {
        assert(b.subrange(HEADER_SIZE as int, HEADER_SIZE as int) =~= Seq::<u8>::empty());
    } else {
        lemma_decoded_inputs_bytes(b, k - 1);
        assert(s.drop_last() =~= decoded_inputs(b).take(k - 1));
        let off = HEADER_SIZE + 8 * (k - 1);
        assert(frame_fits(b, k - 1));
        let w1 = word_at(b, off);
        let w2 = word_at(b, off + 4);
        lemma_player_from_word_roundtrip(w1);
        lemma_player_from_word_roundtrip(w2);
        assert(s.last() == input_at(b, off));
        assert(input_bytes(s.last()) =~= b.subrange(off, off + 4) + b.subrange(off + 4, off + 8));
        assert(b.subrange(HEADER_SIZE as int, off + 8) =~= b.subrange(HEADER_SIZE as int, off) + b.subrange(
            off,
            off + 4,
        ) + b.subrange(off + 4, off + 8));
    }
}

proof fn lemma_decoded_randomizes_bytes(b: Seq<u8>, k: int)
    requires
        header_fields_ok(b),
        body_length_ok(b),
        0 <= k <= header_num_randomizes(b),
    ensures
        randomizes_bytes(decoded_randomizes(b).take(k)) == b.subrange(
            randomizes_offset(b),
            randomizes_offset(b) + 12 * k,
        ),
    decreases k,
{
    lemma_auto_spec_u32_to_from_le_bytes();
    lemma_auto_spec_u64_to_from_le_bytes();
    let s = decoded_randomizes(b).take(k);
    let base = randomizes_offset(b);
    if k == 0 {
        assert(b.subrange(base, base) =~= Seq::<u8>::empty());
    } else {
        lemma_decoded_randomizes_bytes(b, k - 1);
        assert(s.drop_last() =~= decoded_randomizes(b).take(k - 1));
        let off = base + 12 * (k - 1);
        assert(s.last() == randomize_at(b, off));
        assert(randomize_bytes(s.last()) =~= b.subrange(off, off + 4) + b.subrange(off + 4, off + 12));
        assert(b.subrange(base, off + 12) =~= b.subrange(base, off) + b.subrange(off, off + 4)
            + b.subrange(off + 4, off + 12));
    }
}

/// Writing the movie read from bytes gives back those bytes.
pub proof fn lemma_written_read(b: Seq<u8>)
    requires
        ctas_error(b) == None::<CtasParseError>,
        !ctas_aborts(b),
    ensures
        ctas_bytes(
            word_at(b, 4),
            decoded_inputs(b),
            decoded_randomizes(b),
            word_at(b, 16),
            word_at(b, 20),
        ) == b,
{
    lemma_auto_spec_u32_to_from_le_bytes();
    let n = header_num_inputs(b);
    let m = header_num_randomizes(b);
    assert(header_fields_ok(b));
    lemma_decoded_inputs_bytes(b, n);
    lemma_decoded_randomizes_bytes(b, m);
    assert(decoded_inputs(b).take(n) =~= decoded_inputs(b));
    assert(decoded_randomizes(b).take(m) =~= decoded_randomizes(b));
    let h = header_bytes(word_at(b, 4), n, m, word_at(b, 16), word_at(b, 20));
    assert(b.subrange(0, 4) == MAGIC_BYTES@);
    assert(spec_u32_to_le_bytes(word_at(b, 4)) == b.subrange(4, 8));
    assert(spec_u32_to_le_bytes(n as u32) == b.subrange(8, 12));
    assert(spec_u32_to_le_bytes(m as u32) == b.subrange(12, 16));
    assert(spec_u32_to_le_bytes(word_at(b, 16)) == b.subrange(16, 20));
    assert(spec_u32_to_le_bytes(word_at(b, 20)) == b.subrange(20, 24));
    assert(Seq::new(PADDING_SIZE_V1_5 as nat, |i: int| 0u8) =~= b.subrange(24, HEADER_SIZE as int));
    assert(h =~= b.subrange(0, HEADER_SIZE as int));
    assert(b =~= b.subrange(0, HEADER_SIZE as int) + b.subrange(HEADER_SIZE as int, HEADER_SIZE + 8 * n)
        + b.subrange(HEADER_SIZE + 8 * n, HEADER_SIZE + 8 * n + 12 * m));
}

/// Appends `bytes` to `out`.
fn push_bytes(out: &mut Vec<u8>, bytes: &[u8])
    ensures
        final(out)@ == old(out)@ + bytes@,
{
    let mut i: usize = 0;
    while i < bytes.len()
        invariant
            i <= bytes@.len(),
            out@ == old(out)@ + bytes@.take(i as int),
        decreases bytes@.len() - i,
    {
        out.push(bytes[i]);
        proof {
            assert(bytes@.take(i + 1) =~= bytes@.take(i as int).push(bytes@[i as int]));
        }
        i = i + 1;
    }
    assert(bytes@.take(bytes@.len() as int) =~= bytes@);
}

/// A button of player 1, as named in reports of fixed frames.
#[derive(Clone, Copy, Debug, PartialEq, Eq, Structural)]
pub enum Button {
    Up,
    Down,
    Left,
    Right,
    Action1,
    Action2,
}

/// The button `after` with its inconsistencies with the previous frame's
/// `before` repaired, and whether anything changed. Arrows are never changed.
pub open spec fn fix_button(before: ButtonPress, after: ButtonPress, is_arrow: bool) -> (
    ButtonPress,
    bool,
) {
    // held -> not held, but did not release (actions only)
    let f1 = before.held && !after.held && !after.released && !is_arrow;
    let a1 = if f1 {
        ButtonPress { released: true, ..after }
    } else {
        after
    };
    // tapped, but did not press (actions only)
    let f2 = !a1.pressed && !a1.held && a1.released && !before.held && !is_arrow;
    let a2 = if f2 {
        ButtonPress { pressed: true, ..a1 }
    } else {
        a1
    };
    // not held -> held, but did not press (actions only)
    let f3 = !before.held && a2.held && !a2.pressed && !is_arrow;
    let a3 = if f3 {
        ButtonPress { pressed: true, ..a2 }
    } else {
        a2
    };
    (a3, f1 || f2 || f3)
}

/// Player 1's buttons of frame `after`, repaired against the frame `before`.
pub open spec fn fix_input(before: Input, after: Input) -> Input {
    Input {
        p1: PlayerInput {
            up: fix_button(before.p1.up, after.p1.up, true).0,
            down: fix_button(before.p1.down, after.p1.down, true).0,
            left: fix_button(before.p1.left, after.p1.left, true).0,
            right: fix_button(before.p1.right, after.p1.right, true).0,
            action1: fix_button(before.p1.action1, after.p1.action1, false).0,
            action2: fix_button(before.p1.action2, after.p1.action2, false).0,
            ..after.p1
        },
        ..after
    }
}

/// The buttons repaired in frame `i` (against the already repaired frame `before`).
pub open spec fn fix_report(i: usize, before: Input, after: Input) -> Seq<(usize, Button)> {
    let r = |b: Button, fixed: bool| if fixed {
        seq![(i, b)]
    } else {
        seq![]
    };
    r(Button::Up, fix_button(before.p1.up, after.p1.up, true).1) + r(
        Button::Down,
        fix_button(before.p1.down, after.p1.down, true).1,
    ) + r(Button::Left, fix_button(before.p1.left, after.p1.left, true).1) + r(
        Button::Right,
        fix_button(before.p1.right, after.p1.right, true).1,
    ) + r(Button::Action1, fix_button(before.p1.action1, after.p1.action1, false).1) + r(
        Button::Action2,
        fix_button(before.p1.action2, after.p1.action2, false).1,
    )
}

/// The frames with each one repaired against its (already repaired) predecessor.
pub open spec fn fixed_inputs(s: Seq<Input>) -> Seq<Input>
    decreases s.len(),
{
    if s.len() <= 1 {
        s
    } else {
        let r = fixed_inputs(s.drop_last());
        r.push(fix_input(r.last(), s.last()))
    }
}

/// The repairs made while repairing the frames, in order.
pub open spec fn fix_reports(s: Seq<Input>) -> Seq<(usize, Button)>
    decreases s.len(),
{
    if s.len() <= 1 {
        seq![]
    } else {
        let r = fixed_inputs(s.drop_last());
        fix_reports(s.drop_last()) + fix_report((s.len() - 1) as usize, r.last(), s.last())
    }
}

/// Arrow buttons are never changed by the repair.
pub proof fn lemma_arrows_untouched(before: ButtonPress, after: ButtonPress)
    ensures
        fix_button(before, after, true) == (after, false),
{
}

/// Which of player 1's buttons are held in a frame: all that the repair of
/// the next frame reads of it.
pub open spec fn p1_held(i: Input) -> (bool, bool, bool, bool, bool, bool) {
    (i.p1.up.held, i.p1.down.held, i.p1.left.held, i.p1.right.held, i.p1.action1.held, i.p1.action2.held)
}

/// Repairing a button keeps whether it is held, and repairing it a second
/// time against the same previous state changes nothing.
pub proof fn lemma_fix_button_settles(before: ButtonPress, after: ButtonPress, is_arrow: bool)
    ensures
        fix_button(before, after, is_arrow).0.held == after.held,
        fix_button(before, fix_button(before, after, is_arrow).0, is_arrow) == (
            fix_button(before, after, is_arrow).0,
            false,
        ),
{
}

/// The repair of a frame reads of the previous frame only which buttons are
/// held, and keeps which buttons of the frame are held.
#[verifier::rlimit(50)]
proof fn lemma_fix_input_held(b1: Input, b2: Input, a: Input)
    requires
        p1_held(b1) == p1_held(b2),
    ensures
        fix_input(b1, a) == fix_input(b2, a),
        p1_held(fix_input(b1, a)) == p1_held(a),
{
    lemma_fix_button_settles(b1.p1.up, a.p1.up, true);
    lemma_fix_button_settles(b1.p1.down, a.p1.down, true);
    lemma_fix_button_settles(b1.p1.left, a.p1.left, true);
    lemma_fix_button_settles(b1.p1.right, a.p1.right, true);
    lemma_fix_button_settles(b1.p1.action1, a.p1.action1, false);
    lemma_fix_button_settles(b1.p1.action2, a.p1.action2, false);
}

/// Each repaired frame after the first is the original frame repaired
/// against the original previous frame; the first frame is kept.
pub proof fn lemma_fixed_frame(s: Seq<Input>, i: int)
    requires
        0 <= i < s.len(),
    ensures
        fixed_inputs(s).len() == s.len(),
        i == 0 ==> fixed_inputs(s)[i] == s[i],
        i > 0 ==> fixed_inputs(s)[i] == fix_input(s[i - 1], s[i]),
        p1_held(fixed_inputs(s)[i]) == p1_held(s[i]),
    decreases s.len(),
{
    if s.len() > 1 {
        let t = s.drop_last();
        let n = s.len() - 1;
        lemma_fixed_frame(t, n - 1);
        if i < n {
            lemma_fixed_frame(t, i);
        } else {
            let r = fixed_inputs(t);
            assert(r.last() == r[n - 1]);
            lemma_fix_input_held(r.last(), s[n - 1], s.last());
        }
    }
}

/// Repairing frames that were already repaired changes nothing and reports
/// nothing: repairing twice is repairing once.
pub proof fn lemma_fix_idempotent(s: Seq<Input>)
    ensures
        fixed_inputs(fixed_inputs(s)) == fixed_inputs(s),
        fix_reports(fixed_inputs(s)) == Seq::<(usize, Button)>::empty(),
    decreases s.len(),
{
    let t = fixed_inputs(s);
    if s.len() > 0 {
        lemma_fixed_frame(s, 0);
        lemma_fixed_frame(t, 0);
    }
    assert forall|i: int| 0 <= i < s.len() implies fixed_inputs(t)[i] == t[i] by {
        lemma_fixed_frame(s, i);
        lemma_fixed_frame(t, i);
        if i > 0 {
            lemma_fixed_frame(s, i - 1);
            lemma_fix_input_held(t[i - 1], s[i - 1], t[i]);
            let (b, a) = (s[i - 1], s[i]);
            lemma_fix_button_settles(b.p1.up, a.p1.up, true);
            lemma_fix_button_settles(b.p1.down, a.p1.down, true);
            lemma_fix_button_settles(b.p1.left, a.p1.left, true);
            lemma_fix_button_settles(b.p1.right, a.p1.right, true);
            lemma_fix_button_settles(b.p1.action1, a.p1.action1, false);
            lemma_fix_button_settles(b.p1.action2, a.p1.action2, false);
        }
    }
    assert(fixed_inputs(t) =~= t);
    if s.len() > 1 {
        let u = s.drop_last();
        let r = fixed_inputs(u);
        lemma_fix_idempotent(u);
        assert(t.drop_last() =~= r);
        let b = r.last();
        let a = s.last();
        lemma_fix_button_settles(b.p1.up, a.p1.up, true);
        lemma_fix_button_settles(b.p1.down, a.p1.down, true);
        lemma_fix_button_settles(b.p1.left, a.p1.left, true);
        lemma_fix_button_settles(b.p1.right, a.p1.right, true);
        lemma_fix_button_settles(b.p1.action1, a.p1.action1, false);
        lemma_fix_button_settles(b.p1.action2, a.p1.action2, false);
        assert(fix_report((t.len() - 1) as usize, b, t.last()) =~= Seq::<(usize, Button)>::empty());
        assert(fix_reports(t) =~= Seq::<(usize, Button)>::empty());
    }
}

/// Repairs `after` against `before`; returns whether it changed.
fn fix(before: &ButtonPress, after: &mut ButtonPress, is_arrow: bool) -> (fixed: bool)
    ensures
        (*final(after), fixed) == fix_button(*before, *old(after), is_arrow),
{
    let mut fixed = false;

    // held -> not held, but did not release (actions only)
    // In CoffeeTools source code:
    // (heldprev and !held and !released) && (input > 3)
    if before.held && !after.held && !after.released && !is_arrow {
        after.released = true;
        fixed = true;
    }

    // tapped, but did not press (actions only)
    // (!pressed && !held && released && !heldprev) && (input > 3)
    if !after.pressed && !after.held && after.released && !before.held && !is_arrow {
        after.pressed = true;
        fixed = true;
    }

    // not held -> held, but did not press (actions only)
    // (!pressed && held && !heldprev) ... (input > 3)
    if !before.held && after.held && !after.pressed && !is_arrow {
        after.pressed = true;
        fixed = true;
    }

    fixed
}

/// Reports a repair of button `b` in frame `i` when `fixed`.
fn report(reports: &mut Vec<(usize, Button)>, i: usize, b: Button, fixed: bool)
    ensures
        final(reports)@ == old(reports)@ + if fixed {
            seq![(i, b)]
        } else {
            seq![]
        },
{
    if fixed {
        reports.push((i, b));
    }
    assert(reports@ =~= old(reports)@ + if fixed {
        seq![(i, b)]
    } else {
        seq![]
    });
}

/// The re-seedings that fall in frames `[start, end)` (no upper limit when
/// `end` is `None`), moved back by `start` frames.
pub open spec fn sliced_randomizes(s: Seq<Randomize>, start: usize, end: Option<usize>) -> Seq<
    Randomize,
>
    decreases s.len(),
{
    if s.len() == 0 {
        seq![]
    } else {
        let rest = sliced_randomizes(s.drop_last(), start, end);
        let r = s.last();
        if start <= r.frame && (end matches Some(e) ==> r.frame < e) {
            rest.push(Randomize { frame: (r.frame - start) as u32, ..r })
        } else {
            rest
        }
    }
}

/// The re-seedings moved `by` frames later.
pub open spec fn shifted_randomizes(s: Seq<Randomize>, by: u32) -> Seq<Randomize> {
    Seq::new(s.len(), |k: int| Randomize { frame: (s[k].frame + by) as u32, ..s[k] })
}

/// The re-seedings at or after frame `at` moved `amount` frames later.
pub open spec fn delayed_randomizes(s: Seq<Randomize>, at: u32, amount: u32) -> Seq<Randomize> {
    Seq::new(
        s.len(),
        |k: int|
            if s[k].frame >= at {
                Randomize { frame: (s[k].frame + amount) as u32, ..s[k] }
            } else {
                s[k]
            },
    )
}

impl Ctas {
    /// Appends `amount` empty frames. The timer is reset, since it has to be
    /// measured again.
    pub fn add_empty_frames(&mut self, amount: usize)
        ensures
            final(self).inputs@ == old(self).inputs@ + Seq::new(amount as nat, |i: int| no_input()),
            final(self).randomizes@ == old(self).randomizes@,
            final(self).version_number == old(self).version_number,
            final(self).num_rerecords == old(self).num_rerecords,
            final(self).timer == 0,
    {
        let mut k: usize = 0;
        while k < amount
            invariant
                k <= amount,
                self.inputs@ == old(self).inputs@ + Seq::new(k as nat, |i: int| no_input()),
                self.randomizes@ == old(self).randomizes@,
                self.version_number == old(self).version_number,
                self.num_rerecords == old(self).num_rerecords,
                self.timer == old(self).timer,
            decreases amount - k,
        {
            self.inputs.push(Input::default());
            proof {
                assert(Seq::new((k + 1) as nat, |i: int| no_input()) =~= Seq::new(
                    k as nat,
                    |i: int| no_input(),
                ).push(no_input()));
                assert(self.inputs@ =~= old(self).inputs@ + Seq::new(
                    (k + 1) as nat,
                    |i: int| no_input(),
                ));
            }
            k = k + 1;
        }
        // Since this has to be measured again, reset it to avoid mistakes
        self.timer = 0;
    }

    /// Keeps only frames `[start, end)` (to the last frame when `end` is
    /// `None`) and the re-seedings that fall in them, renumbered from `start`.
    /// The timer is reset.
    pub fn slice(&mut self, start: usize, end: Option<usize>)
        requires
            start <= u32::MAX,
            match end {
                Some(e) => start <= e <= old(self).inputs@.len(),
                None => start <= old(self).inputs@.len(),
            },
        ensures
            final(self).inputs@ == old(self).inputs@.subrange(
                start as int,
                match end {
                    Some(e) => e as int,
                    None => old(self).inputs@.len() as int,
                },
            ),
            final(self).randomizes@ == sliced_randomizes(old(self).randomizes@, start, end),
            final(self).version_number == old(self).version_number,
            final(self).num_rerecords == old(self).num_rerecords,
            final(self).timer == 0,
    {
        let start32 = start as u32;
        let mut randomizes: Vec<Randomize> = Vec::new();
        let mut k: usize = 0;
        while k < self.randomizes.len()
            invariant
                k <= self.randomizes@.len(),
                start32 == start,
                randomizes@ == sliced_randomizes(self.randomizes@.take(k as int), start, end),
            decreases self.randomizes@.len() - k,
        {
            let rand = self.randomizes[k];
            let frame = rand.frame as usize;
            let inside = match end {
                Some(e) => start <= frame && frame < e,
                None => start <= frame,
            };
            if inside {
                randomizes.push(Randomize { frame: rand.frame - start32, seed_bits: rand.seed_bits });
            }
            proof {
                let t = self.randomizes@.take(k + 1);
                assert(t.drop_last() =~= self.randomizes@.take(k as int));
            }
            k = k + 1;
        }
        assert(self.randomizes@.take(self.randomizes@.len() as int) =~= self.randomizes@);
        let stop = match end {
            Some(e) => e,
            None => self.inputs.len(),
        };
        let mut inputs: Vec<Input> = Vec::new();
        let mut k: usize = start;
        while k < stop
            invariant
                start <= k <= stop,
                stop <= self.inputs@.len(),
                inputs@ == self.inputs@.subrange(start as int, k as int),
            decreases stop - k,
        {
            inputs.push(self.inputs[k]);
            proof {
                assert(inputs@ =~= self.inputs@.subrange(start as int, k + 1));
            }
            k = k + 1;
        }
        self.randomizes = randomizes;
        self.inputs = inputs;
        // Since this has to be measured again, reset it to avoid mistakes
        self.timer = 0;
    }

    /// Appends the frames of `other`, with its re-seedings moved after this
    /// movie's frames. The timer is reset.
    pub fn append(&mut self, other: Self)
        requires
            old(self).inputs@.len() <= u32::MAX,
            forall|k: int|
                0 <= k < other.randomizes@.len() ==> #[trigger] other.randomizes@[k].frame
                    + old(self).inputs@.len() <= u32::MAX,
        ensures
            final(self).inputs@ == old(self).inputs@ + other.inputs@,
            final(self).randomizes@ == old(self).randomizes@ + shifted_randomizes(
                other.randomizes@,
                old(self).inputs@.len() as u32,
            ),
            final(self).version_number == old(self).version_number,
            final(self).num_rerecords == old(self).num_rerecords,
            final(self).timer == 0,
    {
        let self_frames = self.inputs.len() as u32;
        let mut other = other;
        let ghost others = other.randomizes@;
        let ghost other_inputs = other.inputs@;
        self.inputs.append(&mut other.inputs);
        let mut k: usize = 0;
        while k < other.randomizes.len()
            invariant
                k <= others.len(),
                other.randomizes@ == others,
                self_frames == old(self).inputs@.len(),
                self.inputs@ == old(self).inputs@ + other_inputs,
                self.version_number == old(self).version_number,
                self.num_rerecords == old(self).num_rerecords,
                forall|j: int|
                    0 <= j < others.len() ==> #[trigger] others[j].frame + self_frames <= u32::MAX,
                self.randomizes@ == old(self).randomizes@ + shifted_randomizes(
                    others.take(k as int),
                    self_frames,
                ),
            decreases others.len() - k,
        {
            let r = other.randomizes[k];
            self.randomizes.push(Randomize { frame: r.frame + self_frames, seed_bits: r.seed_bits });
            proof {
                assert(shifted_randomizes(others.take(k + 1), self_frames) =~= shifted_randomizes(
                    others.take(k as int),
                    self_frames,
                ).push(Randomize { frame: (r.frame + self_frames) as u32, ..r }));
            }
            k = k + 1;
        }
        assert(others.take(others.len() as int) =~= others);
        // Since this has to be measured again, reset it to avoid mistakes
        self.timer = 0;
    }

    /// Inserts `amount` empty frames before frame `at`, moving the re-seedings
    /// at or after frame `at` later accordingly. The timer is reset.
    pub fn insert_empty_frames(&mut self, at: usize, amount: usize)
        requires
            at <= old(self).inputs@.len(),
            forall|k: int|
                0 <= k < old(self).randomizes@.len() && #[trigger] old(self).randomizes@[k].frame
                    >= at as u32 ==> old(self).randomizes@[k].frame + amount as u32 <= u32::MAX,
        ensures
            final(self).inputs@ == old(self).inputs@.take(at as int) + Seq::new(
                amount as nat,
                |i: int| no_input(),
            ) + old(self).inputs@.skip(at as int),
            final(self).randomizes@ == delayed_randomizes(
                old(self).randomizes@,
                at as u32,
                amount as u32,
            ),
            final(self).randomizes@.len() == old(self).randomizes@.len(),
            forall|k: int|
                0 <= k < old(self).randomizes@.len() ==> (#[trigger] final(self).randomizes@[k]).seed_bits
                    == old(self).randomizes@[k].seed_bits,
            forall|k: int|
                0 <= k < old(self).randomizes@.len() && old(self).randomizes@[k].frame >= at as u32
                    ==> (#[trigger] final(self).randomizes@[k]).frame == old(self).randomizes@[k].frame
                    + amount as u32,
            forall|k: int|
                0 <= k < old(self).randomizes@.len() && old(self).randomizes@[k].frame < at as u32
                    ==> (#[trigger] final(self).randomizes@[k]).frame == old(self).randomizes@[k].frame,
            at <= u32::MAX && amount <= u32::MAX ==> forall|k: int|
                0 <= k < old(self).randomizes@.len() && old(self).randomizes@[k].frame
                    < old(self).inputs@.len() ==> final(self).inputs@[(#[trigger] final(self).randomizes@[k]).frame as int]
                    == old(self).inputs@[old(self).randomizes@[k].frame as int],
            final(self).version_number == old(self).version_number,
            final(self).num_rerecords == old(self).num_rerecords,
            final(self).timer == 0,
    {
        let ghost s0 = self.inputs@;
        let ghost r0 = self.randomizes@;
        assert(s0 == old(self).inputs@);
        let mut inputs: Vec<Input> = Vec::new();
        let mut k: usize = 0;
        while k < at
            invariant
                k <= at,
                at <= s0.len(),
                self.inputs@ == s0,
                inputs@ == s0.take(k as int),
            decreases at - k,
        {
            inputs.push(self.inputs[k]);
            proof {
                assert(inputs@ =~= s0.take(k + 1));
            }
            k = k + 1;
        }
        let mut k: usize = 0;
        while k < amount
            invariant
                k <= amount,
                inputs@ == s0.take(at as int) + Seq::new(k as nat, |i: int| no_input()),
            decreases amount - k,
        {
            inputs.push(Input::default());
            proof {
                assert(inputs@ =~= s0.take(at as int) + Seq::new((k + 1) as nat, |i: int| no_input()));
            }
            k = k + 1;
        }
        let ghost mid = inputs@;
        let mut k: usize = at;
        while k < self.inputs.len()
            invariant
                at <= k <= s0.len(),
                self.inputs@ == s0,
                inputs@ == mid + s0.subrange(at as int, k as int),
            decreases s0.len() - k,
        {
            inputs.push(self.inputs[k]);
            proof {
                assert(inputs@ =~= mid + s0.subrange(at as int, k + 1));
            }
            k = k + 1;
        }
        assert(s0.subrange(at as int, s0.len() as int) =~= s0.skip(at as int));
        self.inputs = inputs;
        let at32 = #[verifier::truncate] (at as u32);
        let amount32 = #[verifier::truncate] (amount as u32);
        let mut k: usize = 0;
        while k < self.randomizes.len()
            invariant
                k <= r0.len(),
                self.randomizes@.len() == r0.len(),
                self.inputs@ == s0.take(at as int) + Seq::new(amount as nat, |i: int| no_input())
                    + s0.skip(at as int),
                self.version_number == old(self).version_number,
                self.num_rerecords == old(self).num_rerecords,
                at32 == at as u32,
                amount32 == amount as u32,
                forall|j: int|
                    0 <= j < r0.len() && #[trigger] r0[j].frame >= at32 ==> r0[j].frame + amount32
                        <= u32::MAX,
                forall|j: int| 0 <= j < k ==> self.randomizes@[j] == #[trigger] delayed_randomizes(r0, at32, amount32)[j],
                forall|j: int| k <= j < r0.len() ==> self.randomizes@[j] == #[trigger] r0[j],
            decreases r0.len() - k,
        {
            let r = self.randomizes[k];
            assert(r == r0[k as int]);
            if r.frame >= at32 {
                self.randomizes.set(k, Randomize { frame: r.frame + amount32, seed_bits: r.seed_bits });
            }
            k = k + 1;
        }
        assert(self.randomizes@ =~= delayed_randomizes(r0, at32, amount32));
        proof {
            if at <= u32::MAX && amount <= u32::MAX {
                assert forall|j: int|
                    0 <= j < r0.len() && r0[j].frame < s0.len() implies self.inputs@[(
                    #[trigger] self.randomizes@[j]).frame as int] == s0[r0[j].frame as int] by {
                    assert(self.randomizes@[j] == delayed_randomizes(r0, at32, amount32)[j]);
                    let f = r0[j].frame as int;
                    if f >= at {
                        assert(self.inputs@[f + amount] == s0.skip(at as int)[f - at]);
                    } else {
                        assert(self.inputs@[f] == s0.take(at as int)[f]);
                    }
                }
            }
        }
        // Since this has to be measured again, reset it to avoid mistakes
        self.timer = 0;
    }

    /// Repairs player 1's inconsistent button states frame by frame, and
    /// returns, in order, the frames and buttons that were repaired.
    pub fn fix_incongruences(&mut self) -> (fixes: Vec<(usize, Button)>)
        ensures
            final(self).inputs@ == fixed_inputs(old(self).inputs@),
            final(self).inputs@.len() == old(self).inputs@.len(),
            forall|i: int|
                0 < i < old(self).inputs@.len() ==> #[trigger] final(self).inputs@[i] == fix_input(
                    old(self).inputs@[i - 1],
                    old(self).inputs@[i],
                ),
            fixes@ == fix_reports(old(self).inputs@),
            final(self).randomizes@ == old(self).randomizes@,
            final(self).version_number == old(self).version_number,
            final(self).num_rerecords == old(self).num_rerecords,
            final(self).timer == old(self).timer,
    {
        let ghost s0 = self.inputs@;
        let mut fixes: Vec<(usize, Button)> = Vec::new();
        let n = self.inputs.len();
        if n <= 1 {
            return fixes;
        }
        let mut i: usize = 1;
        while i < n
            invariant
                1 <= i <= n,
                n == s0.len(),
                self.inputs@.len() == n,
                self.inputs@.take(i as int) == fixed_inputs(s0.take(i as int)),
                self.inputs@.skip(i as int) == s0.skip(i as int),
                fixes@ == fix_reports(s0.take(i as int)),
                self.randomizes@ == old(self).randomizes@,
                self.version_number == old(self).version_number,
                self.num_rerecords == old(self).num_rerecords,
                self.timer == old(self).timer,
            decreases n - i,
        {
            let j = i - 1;
            let bef = self.inputs[j];
            let mut aft = self.inputs[i];
            let ghost aft0 = aft;
            proof {
                assert(aft0 == s0[i as int]) by {
                    assert(self.inputs@.skip(i as int)[0] == s0.skip(i as int)[0]);
                }
                assert(bef == self.inputs@.take(i as int).last());
            }
            let f = fix(&bef.p1.up, &mut aft.p1.up, true);
            report(&mut fixes, i, Button::Up, f);
            let f = fix(&bef.p1.down, &mut aft.p1.down, true);
            report(&mut fixes, i, Button::Down, f);
            let f = fix(&bef.p1.left, &mut aft.p1.left, true);
            report(&mut fixes, i, Button::Left, f);
            let f = fix(&bef.p1.right, &mut aft.p1.right, true);
            report(&mut fixes, i, Button::Right, f);
            let f = fix(&bef.p1.action1, &mut aft.p1.action1, false);
            report(&mut fixes, i, Button::Action1, f);
            let f = fix(&bef.p1.action2, &mut aft.p1.action2, false);
            report(&mut fixes, i, Button::Action2, f);
            let ghost before_set = self.inputs@;
            self.inputs.set(i, aft);
            proof {
                assert forall|k: int| i + 1 <= k < n implies self.inputs@[k] == s0[k] by {
                    assert(before_set.skip(i as int)[k - i] == s0.skip(i as int)[k - i]);
                }
                let t = s0.take(i + 1);
                assert(t.drop_last() =~= s0.take(i as int));
                assert(t.last() == s0[i as int]);
                assert(aft == fix_input(bef, aft0));
                assert(self.inputs@.take(i + 1) =~= fixed_inputs(s0.take(i as int)).push(aft));
                assert(self.inputs@.skip(i + 1) =~= s0.skip(i + 1));
                assert(fixes@ =~= fix_reports(s0.take(i as int)) + fix_report(i, bef, aft0));
            }
            i = i + 1;
        }
        proof {
            assert(self.inputs@ =~= self.inputs@.take(n as int));
            assert(s0 =~= s0.take(n as int));
            assert forall|k: int| 0 < k < n implies #[trigger] self.inputs@[k] == fix_input(s0[k - 1], s0[k]) by {
                lemma_fixed_frame(s0, k);
            }
        }
        fixes
    }

    /// Writes this movie as bytes.
    pub fn to_bytes(&self) -> (bytes: Vec<u8>)
        requires
            self.inputs@.len() <= i32::MAX,
            self.randomizes@.len() <= i32::MAX,
        ensures
            bytes@ == ctas_bytes(
                self.version_number,
                self.inputs@,
                self.randomizes@,
                self.num_rerecords,
                self.timer,
            ),
    {
        let mut output: Vec<u8> = Vec::new();
        // header
        push_bytes(&mut output, vstd::array::array_as_slice(&MAGIC_BYTES));
        push_bytes(&mut output, u32_to_le_bytes(self.version_number).as_slice());
        let num_inputs = self.inputs.len() as u32;
        push_bytes(&mut output, u32_to_le_bytes(num_inputs).as_slice());
        let num_randomizes = self.randomizes.len() as u32;
        push_bytes(&mut output, u32_to_le_bytes(num_randomizes).as_slice());
        push_bytes(&mut output, u32_to_le_bytes(self.num_rerecords).as_slice());
        push_bytes(&mut output, u32_to_le_bytes(self.timer).as_slice());
        let ghost head_start = output@;
        let mut i: usize = 0;
        while i < PADDING_SIZE_V1_5
            invariant
                i <= PADDING_SIZE_V1_5,
                output@ == head_start + Seq::new(i as nat, |j: int| 0u8),
            decreases PADDING_SIZE_V1_5 - i,
        {
            output.push(0);
            proof {
                assert(Seq::new((i + 1) as nat, |j: int| 0u8) =~= Seq::new(i as nat, |j: int| 0u8).push(0u8));
            }
            i = i + 1;
        }
        let ghost header = output@;
        assert(header =~= header_bytes(
            self.version_number,
            self.inputs@.len() as int,
            self.randomizes@.len() as int,
            self.num_rerecords,
            self.timer,
        ));
        // body
        let mut k: usize = 0;
        while k < self.inputs.len()
            invariant
                k <= self.inputs@.len(),
                output@ == header + inputs_bytes(self.inputs@.take(k as int)),
            decreases self.inputs@.len() - k,
        {
            let frame = self.inputs[k].to_bytes();
            push_bytes(&mut output, vstd::array::array_as_slice(&frame));
            proof {
                let s = self.inputs@.take(k + 1);
                assert(s.drop_last() =~= self.inputs@.take(k as int));
            }
            k = k + 1;
        }
        assert(self.inputs@.take(self.inputs@.len() as int) =~= self.inputs@);
        let ghost with_inputs = output@;
        let mut k: usize = 0;
        while k < self.randomizes.len()
            invariant
                k <= self.randomizes@.len(),
                output@ == with_inputs + randomizes_bytes(self.randomizes@.take(k as int)),
            decreases self.randomizes@.len() - k,
        {
            let bytes = self.randomizes[k].to_bytes();
            push_bytes(&mut output, vstd::array::array_as_slice(&bytes));
            proof {
                let s = self.randomizes@.take(k + 1);
                assert(s.drop_last() =~= self.randomizes@.take(k as int));
            }
            k = k + 1;
        }
        assert(self.randomizes@.take(self.randomizes@.len() as int) =~= self.randomizes@);
        output
    }

    /// The number of frames of this movie.
    pub fn num_inputs(&self) -> (n: usize)
        ensures
            n == self.inputs@.len(),
    {
        self.inputs.len()
    }

    /// Reads a movie from its bytes.
    pub fn from_bytes(slice: &[u8]) -> (r: Result<Self, CtasParseError>)
        requires
            !ctas_aborts(slice@),
        ensures
            match ctas_error(slice@) {
                Some(e) => r == Err::<Ctas, CtasParseError>(e),
                None => r matches Ok(c) && {
                    &&& c.version_number == word_at(slice@, 4)
                    &&& c.inputs@ == decoded_inputs(slice@)
                    &&& c.randomizes@ == decoded_randomizes(slice@)
                    &&& c.num_rerecords == word_at(slice@, 16)
                    &&& c.timer == word_at(slice@, 20)
                },
            },
    {
        let ghost b = slice@;
        if slice.len() < HEADER_SIZE {
            return Err(CtasParseError::InsufficientLength(slice.len()));
        }
        // Magic number
        let magic = [slice[0], slice[1], slice[2], slice[3]];
        if !(magic[0] == MAGIC_BYTES[0] && magic[1] == MAGIC_BYTES[1] && magic[2] == MAGIC_BYTES[2]
            && magic[3] == MAGIC_BYTES[3]) {
            proof {
                if b.subrange(0, 4) == MAGIC_BYTES@ {
                    assert(b.subrange(0, 4)[0] == b[0]);
                    assert(b.subrange(0, 4)[1] == b[1]);
                    assert(b.subrange(0, 4)[2] == b[2]);
                    assert(b.subrange(0, 4)[3] == b[3]);
                }
            }
            return Err(CtasParseError::BadMagicNumber(magic));
        }
        assert(b.subrange(0, 4) =~= MAGIC_BYTES@);
        // Version
        let version_number = read_u32(slice, 4);
        if !(version_number == 3 || version_number == 4) {
            return Err(CtasParseError::UnsupportedVersion(version_number));
        }
        // Number of inputs
        let num_inputs_word = read_u32(slice, 8);
        if num_inputs_word >= 0x8000_0000 {
            return Err(CtasParseError::BadInputLength(num_inputs_word as i32));
        }
        let num_inputs = num_inputs_word as usize;
        // Number of randomizes
        let num_randomizes_word = read_u32(slice, 12);
        if num_randomizes_word >= 0x8000_0000 {
            return Err(CtasParseError::BadInputLength(num_randomizes_word as i32));
        }
        let num_randomizes = num_randomizes_word as usize;
        // Number of rerecords (always 0 in version 3)
        let num_rerecords = read_u32(slice, 16);
        // Timer in milliseconds (always 0 in version 3)
        let timer = read_u32(slice, 20);
        // Padding
        assert(header_fields_ok(b));
        let mut i: usize = 24;
        while i < HEADER_SIZE
            invariant
                24 <= i <= HEADER_SIZE,
                HEADER_SIZE <= slice@.len(),
                b == slice@,
                header_fields_ok(b),
                forall|j: int| 24 <= j < i ==> #[trigger] b[j] == 0,
            decreases HEADER_SIZE - i,
        {
            if slice[i] != 0 {
                assert(b[i as int] != 0);
                assert(!padding_ok(b));
                return Err(CtasParseError::BadPadding);
            }
            i = i + 1;
        }
        // Check body length
        let expected: u64 = 8 * (num_inputs as u64) + 12 * (num_randomizes as u64);
        let actual = slice.len() - HEADER_SIZE;
        if expected != actual as u64 {
            return Err(CtasParseError::BodyLengthMismatch { expected: expected as usize, actual });
        }
        // Body
        let len = slice.len();
        let mut inputs: Vec<Input> = Vec::new();
        let mut k: usize = 0;
        while k < num_inputs
            invariant
                k <= num_inputs,
                len == slice@.len(),
                b == slice@,
                num_inputs == header_num_inputs(b),
                header_fields_ok(b),
                padding_ok(b),
                body_length_ok(b),
                !ctas_aborts(b),
                inputs@ == decoded_inputs(b).take(k as int),
            decreases num_inputs - k,
        {
            let off = HEADER_SIZE + 8 * k;
            let frame = [
                slice[off],
                slice[off + 1],
                slice[off + 2],
                slice[off + 3],
                slice[off + 4],
                slice[off + 5],
                slice[off + 6],
                slice[off + 7],
            ];
            proof {
                assert(frame@ =~= b.subrange(off as int, off + 8));
                assert(frame_fits(b, k as int));
                assert(frame@.subrange(0, 4) =~= b.subrange(off as int, off + 4));
                assert(frame@.subrange(4, 8) =~= b.subrange(off + 4, off + 8));
            }
            match Input::from_bytes(frame) {
                Ok(input) => {
                    inputs.push(input);
                },
                Err(e) => {
                    return Err(CtasParseError::BadInput(e));
                },
            }
            proof {
                assert(inputs@ =~= decoded_inputs(b).take(k + 1));
            }
            k = k + 1;
        }
        let mut randomizes: Vec<Randomize> = Vec::new();
        let base = HEADER_SIZE + 8 * num_inputs;
        let mut k: usize = 0;
        while k < num_randomizes
            invariant
                k <= num_randomizes,
                len == slice@.len(),
                b == slice@,
                num_inputs == header_num_inputs(b),
                num_randomizes == header_num_randomizes(b),
                base == randomizes_offset(b),
                header_fields_ok(b),
                body_length_ok(b),
                randomizes@ == decoded_randomizes(b).take(k as int),
            decreases num_randomizes - k,
        {
            let off = base + 12 * k;
            let bytes = [
                slice[off],
                slice[off + 1],
                slice[off + 2],
                slice[off + 3],
                slice[off + 4],
                slice[off + 5],
                slice[off + 6],
                slice[off + 7],
                slice[off + 8],
                slice[off + 9],
                slice[off + 10],
                slice[off + 11],
            ];
            proof {
                assert(bytes@.subrange(0, 4) =~= b.subrange(off as int, off + 4));
                assert(bytes@.subrange(4, 12) =~= b.subrange(off + 4, off + 12));
            }
            match Randomize::from_bytes(bytes) {
                Ok(randomize) => {
                    randomizes.push(randomize);
                },
                Err(e) => {
                    return Err(CtasParseError::BadInput(e));
                },
            }
            proof {
                assert(randomizes@ =~= decoded_randomizes(b).take(k + 1));
            }
            k = k + 1;
        }
        proof {
            assert(inputs@ =~= decoded_inputs(b));
            assert(randomizes@ =~= decoded_randomizes(b));
        }
        Ok(Self { version_number, inputs, randomizes, num_rerecords, timer })
    }
}

} // verus!
