use vstd::prelude::*;

verus! {

/// The constant that closes the key schedule of Threefry.
pub const THREEFRY_PARITY: u32 = 0x1BD1_1BDA;

/// The sum of two words, modulo 2^32.
pub open spec fn wrapped_sum(x: u32, y: u32) -> u32 {
    ((x + y) % 0x1_0000_0000) as u32
}

/// A word rotated to the left by `bits`, for `bits` between 1 and 31.
pub open spec fn rotated_left(x: u32, bits: u32) -> u32 {
    (x << bits) | (x >> ((32 - bits) as u32))
}

/// One round: the first word takes up the second, the second is rotated and
/// mixed with the new first.
pub open spec fn mixed(pair: (u32, u32), bits: u32) -> (u32, u32) {
    let first = wrapped_sum(pair.0, pair.1);
    (first, rotated_left(pair.1, bits) ^ first)
}

/// Four rounds, by the four given rotations.
pub open spec fn four_rounds(pair: (u32, u32), rotations: (u32, u32, u32, u32)) -> (u32, u32) {
    mixed(mixed(mixed(mixed(pair, rotations.0), rotations.1), rotations.2), rotations.3)
}

/// The injection of two key words after a group of four rounds; the second
/// also takes the number of the group.
pub open spec fn keyed(pair: (u32, u32), first: u32, second: u32, group: u32) -> (u32, u32) {
    (wrapped_sum(pair.0, first), wrapped_sum(wrapped_sum(pair.1, second), group))
}

/// The rotations of the odd groups of rounds.
pub open spec fn odd_rotations() -> (u32, u32, u32, u32) {
    (13, 15, 26, 6)
}

/// The rotations of the even groups of rounds.
pub open spec fn even_rotations() -> (u32, u32, u32, u32) {
    (17, 29, 16, 24)
}

/// Threefry-2x32 with twenty rounds: the block of two counter words
/// enciphered under a key of two words.
///
/// The key schedule has three words: the two of the key, and their
/// exclusive or with the parity constant. The counter takes up the first two
/// words; after each group of four rounds it takes up the next two in turn,
/// and the number of the group.
#[verifier::opaque]
pub open spec fn threefry_block(key: (u32, u32), counter: (u32, u32)) -> (u32, u32) {
    let k0 = key.0;
    let k1 = key.1;
    let k2 = k0 ^ k1 ^ THREEFRY_PARITY;
    let start = (wrapped_sum(counter.0, k0), wrapped_sum(counter.1, k1));
    let one = keyed(four_rounds(start, odd_rotations()), k1, k2, 1);
    let two = keyed(four_rounds(one, even_rotations()), k2, k0, 2);
    let three = keyed(four_rounds(two, odd_rotations()), k0, k1, 3);
    let four = keyed(four_rounds(three, even_rotations()), k1, k2, 4);
    keyed(four_rounds(four, odd_rotations()), k2, k0, 5)
}

/// The words that Threefry makes of a run of counter words: the run is cut
/// in halves, word `i` of the first half and word `i` of the second make a
/// block, and the two words of the enciphered block go back to where the
/// counter words stood.
pub open spec fn threefry_words(key: (u32, u32), data: Seq<u32>) -> Seq<u32> {
    let half = data.len() / 2;
    Seq::new(
        data.len(),
        |i: int|
            if i < half {
                threefry_block(key, (data[i], data[i + half])).0
            } else {
                threefry_block(key, (data[i - half], data[i])).1
            },
    )
}

fn wrapping_sum(x: u32, y: u32) -> (sum: u32)
    ensures
        sum == wrapped_sum(x, y),
{
    ((x as u64 + y as u64) % 0x1_0000_0000) as u32
}

fn rotate_left(x: u32, bits: u32) -> (rotated: u32)
    requires
        1 <= bits <= 31,
    ensures
        rotated == rotated_left(x, bits),
{
    (x << bits) | (x >> (32 - bits))
}

fn mix(pair: (u32, u32), bits: u32) -> (out: (u32, u32))
    requires
        1 <= bits <= 31,
    ensures
        out == mixed(pair, bits),
{
    let first = wrapping_sum(pair.0, pair.1);
    (first, rotate_left(pair.1, bits) ^ first)
}

fn odd_rounds(pair: (u32, u32)) -> (out: (u32, u32))
    ensures
        out == four_rounds(pair, odd_rotations()),
{
    mix(mix(mix(mix(pair, 13), 15), 26), 6)
}

fn even_rounds(pair: (u32, u32)) -> (out: (u32, u32))
    ensures
        out == four_rounds(pair, even_rotations()),
{
    mix(mix(mix(mix(pair, 17), 29), 16), 24)
}

fn inject(pair: (u32, u32), first: u32, second: u32, group: u32) -> (out: (u32, u32))
    ensures
        out == keyed(pair, first, second, group),
{
    (wrapping_sum(pair.0, first), wrapping_sum(wrapping_sum(pair.1, second), group))
}

/// Enciphers one block of two counter words under a key of two words.
pub fn threefry2x32_block(key: (u32, u32), counter: (u32, u32)) -> (out: (u32, u32))
    ensures
        out == threefry_block(key, counter),
{
    reveal(threefry_block);
    let k0 = key.0;
    let k1 = key.1;
    let k2 = k0 ^ k1 ^ THREEFRY_PARITY;
    let start = (wrapping_sum(counter.0, k0), wrapping_sum(counter.1, k1));
    let one = inject(odd_rounds(start), k1, k2, 1);
    let two = inject(even_rounds(one), k2, k0, 2);
    let three = inject(odd_rounds(two), k0, k1, 3);
    let four = inject(even_rounds(three), k1, k2, 4);
    inject(odd_rounds(four), k2, k0, 5)
}

/// Enciphers a run of counter words under a key of two words. The run has
/// an even number of words: its halves are taken as the first and the second
/// words of the blocks.
pub fn threefry2x32_op(keys: &[u32; 2], data: &[u32]) -> (words: Vec<u32>)
    requires
        data@.len() % 2 == 0,
    ensures
        words@ == threefry_words((keys@[0], keys@[1]), data@),
{
    let key = (keys[0], keys[1]);
    let half = data.len() / 2;
    let mut firsts: Vec<u32> = Vec::new();
    let mut seconds: Vec<u32> = Vec::new();
    let mut i: usize = 0;
    while i < half
        invariant
            i <= half,
            half * 2 == data@.len(),
            key == (keys@[0], keys@[1]),
            firsts@.len() == i,
            seconds@.len() == i,
            forall|a: int|
                0 <= a < i ==> firsts@[a] == threefry_block(key, (data@[a], data@[a + half])).0,
            forall|a: int|
                0 <= a < i ==> seconds@[a] == threefry_block(key, (data@[a], data@[a + half])).1,
        decreases half - i,
    {
        let block = threefry2x32_block(key, (data[i], data[i + half]));
        firsts.push(block.0);
        seconds.push(block.1);
        i += 1;
    }
    let mut words = firsts;
    let mut j: usize = 0;
    while j < half
        invariant
            j <= half,
            half * 2 == data@.len(),
            seconds@.len() == half,
            words@.len() == half + j,
            forall|a: int|
                0 <= a < half ==> words@[a] == threefry_block(key, (data@[a], data@[a + half])).0,
            forall|a: int|
                0 <= a < half ==> seconds@[a] == threefry_block(key, (data@[a], data@[a + half])).1,
            forall|a: int| half <= a < half + j ==> words@[a] == seconds@[a - half],
        decreases half - j,
    {
        words.push(seconds[j]);
        j += 1;
    }
    proof {
        assert(words@ =~= threefry_words(key, data@));
    }
    words
}

/// The number of work groups of 256 that a run of `data_size` bytes of
/// counter words is enciphered with.
pub fn threefry_dispatch_size(data_size: u64) -> (groups: u32)
    requires
        data_size / 4 * 2 <= u32::MAX,
    ensures
        groups == (data_size / 4 * 2 + 255) / 256,
{
    ((data_size / 4 * 2 + 255) / 256) as u32
}

} // verus!
