//! The address space: 32768 words held as 65536 bytes, each word as its low
//! byte followed by its high byte.

use vstd::prelude::*;
use crate::fault::Fault;

verus! {

/// Number of words in the address space.
pub const WORDS: usize = 32768;

/// Number of bytes in the image of the address space.
pub const IMAGE_BYTES: usize = 65536;

/// The word whose low byte is `low` and whose high byte is `high`.
pub open spec fn join(low: u8, high: u8) -> u16 {
    (high * 256 + low) as u16
}

/// Low byte of a word.
pub open spec fn low_byte(word: u16) -> u8 {
    (word % 256) as u8
}

/// High byte of a word.
pub open spec fn high_byte(word: u16) -> u8 {
    (word / 256) as u8
}

/// The word at word index `i` of a byte image.
pub open spec fn word_at(image: Seq<u8>, i: int) -> u16 {
    join(image[2 * i], image[2 * i + 1])
}

/// All complete words of a byte image, in order.
pub open spec fn words_of(image: Seq<u8>) -> Seq<u16> {
    Seq::new((image.len() / 2) as nat, |i: int| word_at(image, i))
}

/// The byte image of a sequence of words.
pub open spec fn image_of(words: Seq<u16>) -> Seq<u8> {
    Seq::new(
        2 * words.len(),
        |k: int| if k % 2 == 0 { low_byte(words[k / 2]) } else { high_byte(words[k / 2]) },
    )
}

/// A byte sequence followed by as many zero bytes as it takes to reach
/// `len` bytes.
pub open spec fn zero_extended(bytes: Seq<u8>, len: nat) -> Seq<u8>
    recommends
        bytes.len() <= len,
{
    Seq::new(len, |k: int| if k < bytes.len() { bytes[k] } else { 0u8 })
}

/// Splitting a word into its bytes and joining them again gives the word.
pub proof fn lemma_split_join(word: u16)
    ensures
        join(low_byte(word), high_byte(word)) == word,
{
}

/// Joining two bytes and splitting the word gives the two bytes.
pub proof fn lemma_join_split(low: u8, high: u8)
    ensures
        low_byte(join(low, high)) == low,
        high_byte(join(low, high)) == high,
{
}

/// The words of the image of `words` are `words`.
pub proof fn lemma_words_of_image(words: Seq<u16>)
    ensures
        words_of(image_of(words)) =~= words,
{
    assert forall|i: int| 0 <= i < words.len() implies word_at(image_of(words), i) == words[i] by {
        lemma_split_join(words[i]);
    }
}

/// The image of the words of an image of even length is that image.
pub proof fn lemma_image_of_words(image: Seq<u8>)
    requires
        image.len() % 2 == 0,
    ensures
        image_of(words_of(image)) =~= image,
{
    assert forall|k: int| 0 <= k < image.len() implies image_of(words_of(image))[k] == image[k] by {
        lemma_join_split(image[2 * (k / 2)], image[2 * (k / 2) + 1]);
    }
}

/// The address space of a machine.
pub struct AddressSpace {
    bytes: Vec<u8>,
}

impl View for AddressSpace {
    type V = Seq<u16>;

    /// The 32768 words, by address.
    closed spec fn view(&self) -> Seq<u16> {
        Seq::new(32768, |i: int| word_at(self.bytes@, i))
    }
}

impl AddressSpace {
    #[verifier::type_invariant]
    spec fn whole(&self) -> bool {
        self.bytes@.len() == 65536
    }

    /// Every address space has 32768 words.
    pub proof fn lemma_len(&self)
        ensures
            self@.len() == 32768,
    {
    }

    /// The address space that holds the program image `rom` from address 0
    /// on and zero everywhere behind it.
    pub fn load(rom: Vec<u8>) -> (space: AddressSpace)
        requires
            rom@.len() <= 65536,
        ensures
            space@ == words_of(zero_extended(rom@, 65536)),
            space@.len() == 32768,
    {
        let mut bytes = rom;
        bytes.resize(IMAGE_BYTES, 0u8);
        assert(bytes@ =~= zero_extended(rom@, 65536));
        let space = AddressSpace { bytes };
        assert(space@ =~= words_of(zero_extended(rom@, 65536)));
        space
    }

    /// The word at `addr`, or `OutOfBounds` for an address of 32768 or more.
    pub fn read(&self, addr: u16) -> (r: Result<u16, Fault>)
        ensures
            self@.len() == 32768,
            addr < 32768 ==> r == Ok::<u16, Fault>(self@[addr as int]),
            addr >= 32768 ==> r == Err::<u16, Fault>(Fault::OutOfBounds { addr }),
    {
        proof {
            use_type_invariant(self);
        }
        if (addr as usize) < WORDS {
            let at: usize = 2 * (addr as usize);
            let low: u16 = self.bytes[at] as u16;
            let high: u16 = self.bytes[at + 1] as u16;
            Ok(high * 256 + low)
        } else {
            Err(Fault::OutOfBounds { addr })
        }
    }

    /// Stores `value` at `addr`, or fails with `OutOfBounds` and changes
    /// nothing for an address of 32768 or more.
    pub fn write(&mut self, addr: u16, value: u16) -> (r: Result<(), Fault>)
        ensures
            addr < 32768 ==> r.is_ok() && final(self)@ == old(self)@.update(addr as int, value),
            addr >= 32768 ==> r == Err::<(), Fault>(Fault::OutOfBounds { addr }) && final(self)@
                == old(self)@,
    {
        proof {
            use_type_invariant(&*self);
        }
        if (addr as usize) < WORDS {
            let at: usize = 2 * (addr as usize);
            let low: u8 = (value % 256) as u8;
            let high: u8 = (value / 256) as u8;
            self.bytes[at] = low;
            self.bytes[at + 1] = high;
            proof {
                lemma_split_join(value);
                assert(self@ =~= old(self)@.update(addr as int, value));
            }
            Ok(())
        } else {
            Err(Fault::OutOfBounds { addr })
        }
    }

    /// The whole address space as 65536 bytes, each word as its low byte
    /// followed by its high byte.
    pub fn image(&self) -> (bytes: &Vec<u8>)
        ensures
            bytes@ == image_of(self@),
    {
        proof {
            use_type_invariant(self);
            lemma_image_of_words(self.bytes@);
            assert(self@ =~= words_of(self.bytes@));
        }
        &self.bytes
    }
}

} // verus!
