use vstd::prelude::*;

use crate::ndarray::{copy_shape, identity_indexes, NdArray};
use crate::operand::F32_ONE_BITS;
use crate::random::iota::iota_op;
use crate::random::threefry::{threefry2x32_op, threefry_words};
use crate::shape::shape_product;
use crate::types::Dtype;

verus! {

/// `bytemuck::PodCastError`, the reason a cast between plain data failed.
/// Nothing is known of its values; they are only carried through.
#[verifier::external_type_specification]
#[verifier::external_body]
pub struct ExPodCastError(bytemuck::PodCastError);

/// The word that four bytes make, the least significant byte first.
pub open spec fn word_of(b0: u8, b1: u8, b2: u8, b3: u8) -> int {
    b0 + 256 * b1 + 65536 * b2 + 16777216 * b3
}

/// The words are the bytes, four to a word, all in the one byte order of the
/// machine: the least significant byte first, or the most significant.
pub open spec fn words_of_bytes(words: Seq<u32>, bytes: Seq<u8>) -> bool {
    &&& words.len() * 4 == bytes.len()
    &&& {
        ||| forall|i: int|
            0 <= i < words.len() ==> #[trigger] words[i] == word_of(
                bytes[4 * i],
                bytes[4 * i + 1],
                bytes[4 * i + 2],
                bytes[4 * i + 3],
            )
        ||| forall|i: int|
            0 <= i < words.len() ==> #[trigger] words[i] == word_of(
                bytes[4 * i + 3],
                bytes[4 * i + 2],
                bytes[4 * i + 1],
                bytes[4 * i],
            )
    }
}

/// Reads a run of bytes as 32-bit words with `bytemuck::try_cast_slice` and
/// copies them out.
///
/// Trusted: when the cast succeeds, there is one word for every four bytes,
/// and each word is its four bytes in the byte order of the machine. The
/// cast fails where the bytes are not aligned for words or are not a whole
/// number of words; nothing is claimed of when that is.
#[verifier::external_body]
fn cast_words(bytes: &[u8]) -> (res: Result<Vec<u32>, bytemuck::PodCastError>)
    ensures
        res matches Ok(words) ==> words_of_bytes(words@, bytes@),
{
    match bytemuck::try_cast_slice::<u8, u32>(bytes) {
        Ok(words) => Ok(words.to_vec()),
        Err(error) => Err(error),
    }
}

/// The bits of the 32-bit float between 1 and 2 that shares its 23 fraction
/// bits with the top bits of a random word.
pub open spec fn unit_float_bits(random: u32) -> u32 {
    (random >> 9u32) | F32_ONE_BITS
}

/// A source of random words.
pub trait Generator {
    /// Random words for an array of shape `shape`, one for each element.
    fn random_bit(&mut self, shape: &[u32]) -> (bits: Vec<u32>)
        requires
            shape_product(shape@) <= u32::MAX,
            shape_product(shape@) % 2 == 0,
        ensures
            bits@.len() == shape_product(shape@),
    ;
}

/// A counter-based generator: Threefry-2x32 under a key that moves on with
/// every draw.
#[derive(Debug)]
pub struct ThreeFry2x32 {
    new_key: [u32; 2],
    input_key: [u32; 2],
}

/// Random floats that are ready for their kernels: the array that comes of
/// them, and for each element the bits of a float drawn evenly between 1 and
/// 2, which is then moved and scaled to the range asked for.
#[derive(Debug)]
pub struct RandomFloats {
    pub array: NdArray,
    pub float_bits: Vec<u32>,
}

impl ThreeFry2x32 {
    /// The key that the next draw is made under.
    pub closed spec fn spec_input_key(&self) -> (u32, u32) {
        (self.input_key@[0], self.input_key@[1])
    }

    /// The key that the last draw left for callers to branch off.
    pub closed spec fn spec_new_key(&self) -> (u32, u32) {
        (self.new_key@[0], self.new_key@[1])
    }

    /// The words that a draw makes the next keys of: those of the counters
    /// 0 to 3 under the key of the draw.
    pub open spec fn next_keys(key: (u32, u32)) -> Seq<u32> {
        threefry_words(key, identity_indexes(4))
    }

    /// The generator after a draw under `key`.
    pub open spec fn moved_on(&self, key: (u32, u32)) -> bool {
        &&& self.spec_new_key() == (Self::next_keys(key)[0], Self::next_keys(key)[1])
        &&& self.spec_input_key() == (Self::next_keys(key)[2], Self::next_keys(key)[3])
    }

    /// A generator seeded with `key`.
    pub fn new(key: u32) -> (generator: Self)
        ensures
            generator.spec_new_key() == (0u32, key),
            generator.spec_input_key() == (0u32, key),
    {
        Self { new_key: [0, key], input_key: [0, key] }
    }

    /// The two keys of the generator: the one for callers to branch off, then
    /// the one that the next draw is made under.
    pub fn get_keys(&self) -> (keys: [[u32; 2]; 2])
        ensures
            (keys@[0]@[0], keys@[0]@[1]) == self.spec_new_key(),
            (keys@[1]@[0], keys@[1]@[1]) == self.spec_input_key(),
    {
        [self.new_key, self.input_key]
    }

    /// Reads the bytes of a device buffer as 32-bit words. `None` says that
    /// the bytes could not be read as words.
    pub fn read_buffer(data: &[u8]) -> (words: Option<Vec<u32>>)
        ensures
            words matches Some(read) ==> words_of_bytes(read@, data@),
    {
        match cast_words(data) {
            Ok(words) => Some(words),
            Err(_) => None,
        }
    }

    /// A generator with the keys that two device buffers hold, each of two
    /// words. `None` says that a buffer could not be read as two words.
    pub fn from_key_buffers(new_key: &[u8], input_key: &[u8]) -> (generator: Option<Self>)
        ensures
            generator matches Some(restored) ==> {
                &&& new_key@.len() == 8
                &&& input_key@.len() == 8
                &&& words_of_bytes(
                    seq![restored.spec_new_key().0, restored.spec_new_key().1],
                    new_key@,
                )
                &&& words_of_bytes(
                    seq![restored.spec_input_key().0, restored.spec_input_key().1],
                    input_key@,
                )
            },
            new_key@.len() != 8 || input_key@.len() != 8 ==> generator is None,
    {
        let first = Self::read_buffer(new_key);
        let second = Self::read_buffer(input_key);
        proof {
            if first is Some && first->0@.len() == 2 {
                assert(first->0@ =~= seq![first->0@[0], first->0@[1]]);
            }
            if second is Some && second->0@.len() == 2 {
                assert(second->0@ =~= seq![second->0@[0], second->0@[1]]);
            }
        }
        Self::from_key_words(first, second)
    }

    /// The two words of a read of a key buffer, where the read gave exactly
    /// two.
    pub open spec fn two_words(read: Option<Vec<u32>>) -> Option<(u32, u32)> {
        match read {
            Some(words) => if words@.len() == 2 {
                Some((words@[0], words@[1]))
            } else {
                None
            },
            None => None,
        }
    }

    /// A generator with the keys that two reads of key buffers gave: the key
    /// for callers, then the key of the next draw. There is a generator
    /// exactly when both reads succeeded and gave two words each.
    pub fn from_key_words(new_key: Option<Vec<u32>>, input_key: Option<Vec<u32>>) -> (generator:
        Option<Self>)
        ensures
            match generator {
                Some(restored) => Self::two_words(new_key) == Some(restored.spec_new_key())
                    && Self::two_words(input_key) == Some(restored.spec_input_key()),
                None => Self::two_words(new_key) is None || Self::two_words(input_key) is None,
            },
    {
        let first = match new_key {
            Some(words) => words,
            None => {
                return None;
            },
        };
        let second = match input_key {
            Some(words) => words,
            None => {
                return None;
            },
        };
        if first.len() != 2 || second.len() != 2 {
            return None;
        }
        Some(Self { new_key: [first[0], first[1]], input_key: [second[0], second[1]] })
    }

    /// Random words for an array of shape `shape`, and the move to the next
    /// keys.
    ///
    /// The words are those that Threefry makes, under the key of the draw, of
    /// the counters `0, 1, ..`, one for each element. The next keys are the
    /// words that it makes of the counters 0 to 3 under the same key: the
    /// first two for callers, the last two for the next draw.
    pub fn random_bit_op(&mut self, shape: &[u32]) -> (bits: Vec<u32>)
        requires
            shape_product(shape@) <= u32::MAX,
            shape_product(shape@) % 2 == 0,
        ensures
            bits@ == threefry_words(
                old(self).spec_input_key(),
                identity_indexes(shape_product(shape@)),
            ),
            final(self).moved_on(old(self).spec_input_key()),
    {
        let rand_input = iota_op(shape);
        let key_shape: [u32; 1] = [4];
        proof {
            let four = key_shape@;
            assert(four =~= seq![4u32]);
            assert(four.drop_first() =~= Seq::<u32>::empty());
            assert(shape_product(four.drop_first()) == 1);
            assert(shape_product(four) == (four[0] as nat) * shape_product(four.drop_first()));
        }
        let key_input = iota_op(key_shape.as_slice());
        let rand_buffer = threefry2x32_op(&self.input_key, rand_input.as_slice());
        let new_keys_buffer = threefry2x32_op(&self.input_key, key_input.as_slice());
        self.new_key = [new_keys_buffer[0], new_keys_buffer[1]];
        self.input_key = [new_keys_buffer[2], new_keys_buffer[3]];
        rand_buffer
    }

    /// The floats of a uniform draw for an array of shape `shape`, as bits
    /// of floats between 1 and 2; the generator moves on as in
    /// [`random_bit_op`](Self::random_bit_op).
    ///
    /// Each random word gives its top 23 bits as the fraction of a float
    /// with the exponent of 1.
    pub fn uniform_op(&mut self, shape: &[u32]) -> (floats: RandomFloats)
        requires
            shape@.len() <= u16::MAX,
            shape_product(shape@) <= u32::MAX,
            shape_product(shape@) % 2 == 0,
        ensures
            floats.array.wf(),
            floats.array.shape@ == shape@,
            floats.array.dtype == Dtype::Float32,
            floats.float_bits@ == threefry_words(
                old(self).spec_input_key(),
                identity_indexes(shape_product(shape@)),
            ).map_values(|word: u32| unit_float_bits(word)),
            final(self).moved_on(old(self).spec_input_key()),
    {
        let rand_buffer = self.random_bit_op(shape);
        let ghost words = rand_buffer@;
        let mut float_bits: Vec<u32> = Vec::new();
        let mut i: usize = 0;
        while i < rand_buffer.len()
            invariant
                i <= rand_buffer@.len(),
                words == rand_buffer@,
                float_bits@.len() == i,
                forall|a: int| 0 <= a < i ==> float_bits@[a] == unit_float_bits(words[a]),
            decreases rand_buffer.len() - i,
        {
            float_bits.push((rand_buffer[i] >> 9u32) | F32_ONE_BITS);
            i += 1;
        }
        proof {
            assert(float_bits@ =~= words.map_values(|word: u32| unit_float_bits(word)));
        }
        let shape = copy_shape(shape);
        let dims = shape.len() as u16;
        RandomFloats { array: NdArray { shape, dims, dtype: Dtype::Float32 }, float_bits }
    }

    /// The floats of a normal draw for an array of shape `shape`, before
    /// they are bent to the bell: a uniform draw as in
    /// [`uniform_op`](Self::uniform_op).
    pub fn normal(&mut self, shape: &[u32]) -> (floats: RandomFloats)
        requires
            shape@.len() <= u16::MAX,
            shape_product(shape@) <= u32::MAX,
            shape_product(shape@) % 2 == 0,
        ensures
            floats.array.wf(),
            floats.array.shape@ == shape@,
            floats.array.dtype == Dtype::Float32,
            floats.float_bits@ == threefry_words(
                old(self).spec_input_key(),
                identity_indexes(shape_product(shape@)),
            ).map_values(|word: u32| unit_float_bits(word)),
            final(self).moved_on(old(self).spec_input_key()),
    {
        self.uniform_op(shape)
    }
}

impl Generator for ThreeFry2x32 {
    fn random_bit(&mut self, shape: &[u32]) -> (bits: Vec<u32>)
        ensures
            bits@ == threefry_words(
                old(self).spec_input_key(),
                identity_indexes(shape_product(shape@)),
            ),
            final(self).moved_on(old(self).spec_input_key()),
    {
        self.random_bit_op(shape)
    }
}

} // verus!
