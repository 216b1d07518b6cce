use cryptokit::chunk_pair_iter::ChunkPairIter;
use cryptokit::random::{MersenneStream, MersenneTwister};

#[test]
fn mt19937_reference_seed_5489() {
    let mut mt = MersenneTwister::new(5489);
    assert_eq!(mt.get(), 3499211612);
    assert_eq!(mt.get(), 581869302);
    assert_eq!(mt.get(), 3890346734);
    assert_eq!(mt.get(), 3586334585);
    assert_eq!(mt.get(), 545404204);
}

#[test]
fn mt19937_seed_1() {
    let mut mt = MersenneTwister::new(1);
    assert_eq!(mt.get(), 1791095845);
    assert_eq!(mt.get(), 4282876139);
}

#[test]
fn mt19937_runs_past_one_state_length() {
    let mut mt = MersenneTwister::new(5489);
    let mut last = 0;
    for _ in 0..10000 {
        last = mt.get();
    }
    assert_eq!(last, 4123659995);
}

#[test]
fn from_state_of_zeros_gives_zero() {
    let mut mt = MersenneTwister::from_state(&[0u32; 624]);
    assert_eq!(mt.get(), 0);
    assert_eq!(mt.get(), 0);
}

#[test]
fn from_state_copies_the_words() {
    let mut words = [0u32; 624];
    words[0] = 0x8000_0000;
    words[1] = 1;
    words[397] = 0xffff_0000;
    let mut mt = MersenneTwister::from_state(&words);
    let x = 0xffff_0000u32 ^ (0x4000_0000u32 ^ 0x9908_b0df);
    let mut y = x;
    y ^= x >> 11;
    y ^= (y << 7) & 0x9d2c_5680;
    y ^= (y << 15) & 0xefc6_0000;
    y ^= y >> 18;
    assert_eq!(mt.get(), y);
}

#[test]
fn stream_gives_each_number_most_significant_byte_first() {
    let mut mt = MersenneTwister::new(4242);
    let mut stream = MersenneStream::new(4242);
    for _ in 0..10 {
        let word = mt.get();
        for byte in word.to_be_bytes() {
            assert_eq!(stream.next(), Some(byte));
        }
    }
}

#[test]
fn chunk_pairs_come_in_order() {
    let data: Vec<u8> = (0..10).collect();
    let mut it = ChunkPairIter::new(&data, 2);
    assert_eq!(it.pair_count(), 2);
    assert_eq!(it.next(), Some((&data[0..2], &data[2..4])));
    assert_eq!(it.next(), Some((&data[4..6], &data[6..8])));
    assert_eq!(it.next(), None);
    assert_eq!(it.next(), None);
    assert_eq!(it.pair_count(), 2);
}

#[test]
fn chunk_pairs_of_a_short_buffer_are_none() {
    let data = [1u8, 2, 3];
    let mut it = ChunkPairIter::new(&data, 2);
    assert_eq!(it.pair_count(), 0);
    assert_eq!(it.next(), None);
}

#[test]
fn chunk_pairs_of_size_one() {
    let data = [1u8, 2, 3, 4, 5];
    let mut it = ChunkPairIter::new(&data, 1);
    assert_eq!(it.pair_count(), 2);
    assert_eq!(it.next(), Some((&data[0..1], &data[1..2])));
    assert_eq!(it.next(), Some((&data[2..3], &data[3..4])));
    assert_eq!(it.next(), None);
}
