use integer_digits::{DecodeStep, Element, Integer, SeqDecoder};
use rug::rand::RandState;
use serde::de::{Deserializer, SeqAccess, Visitor};
use serde::ser::SerializeSeq;
use serde::{Deserialize, Serialize, Serializer};
use std::fmt;

/// An integer as it travels through serde: a sequence of its digits.
#[derive(Debug, Clone, PartialEq, Eq)]
struct Wire(Integer);

struct WireVisitor;

impl<'de> Visitor<'de> for WireVisitor {
    type Value = Wire;

    fn expecting(&self, formatter: &mut fmt::Formatter) -> fmt::Result {
        formatter.write_str("a sequence of bytes in little-endian format")
    }

    fn visit_seq<A>(self, mut seq: A) -> Result<Wire, A::Error>
    where
        A: SeqAccess<'de>,
    {
        let mut decoder = SeqDecoder::new(seq.size_hint());
        loop {
            let (element, failure) = match seq.next_element::<u8>() {
                Ok(Some(digit)) => (Element::Digit(digit), None),
                Ok(None) => (Element::End, None),
                Err(e) => (Element::Invalid, Some(e)),
            };
            match decoder.step(element) {
                DecodeStep::Continue(next) => decoder = next,
                DecodeStep::Done(value) => return Ok(Wire(value)),
                DecodeStep::Failed(_) => return Err(failure.unwrap()),
            }
        }
    }
}

impl<'de> Deserialize<'de> for Wire {
    fn deserialize<D>(deserializer: D) -> Result<Self, D::Error>
    where
        D: Deserializer<'de>,
    {
        deserializer.deserialize_seq(WireVisitor)
    }
}

impl Serialize for Wire {
    fn serialize<S>(&self, serializer: S) -> Result<S::Ok, S::Error>
    where
        S: Serializer,
    {
        let digits = self.0.to_digits();
        let mut seq = serializer.serialize_seq(Some(digits.len()))?;
        for e in digits.iter() {
            seq.serialize_element(e)?;
        }
        seq.end()
    }
}

fn lengths() -> Vec<u32> {
    vec![
        0, 1, 2, 4, 7, 8, 9, 15, 16, 17, 30, 31, 32, 32, 60, 61, 62, 64, 127, 128, 129, 130,
    ]
}

fn random_below_pow2(bits: u32, rand: &mut RandState) -> Wire {
    let bound = rug::Integer::from(rug::Integer::u_pow_u(2, bits));
    Wire(Integer::from(bound.random_below(rand)))
}

#[test]
fn test_serialize_bincode() {
    let mut rand = RandState::new();

    // check specific lengths
    for len in lengths().into_iter() {
        for _ in 0..10 {
            let number = random_below_pow2(len, &mut rand);
            let bs = bincode::serialize(&number).unwrap();
            let number_new: Wire = bincode::deserialize(&bs[..]).unwrap();
            assert_eq!(number, number_new);
        }
    }

    // check random lengths
    for _ in 0..100 {
        let bits = rug::Integer::from(1_000_000);
        let number = random_below_pow2(bits.to_u32().unwrap(), &mut rand);
        let bs = bincode::serialize(&number).unwrap();
        let number_new: Wire = bincode::deserialize(&bs[..]).unwrap();
        assert_eq!(number, number_new);
    }
}

#[test]
fn test_serialize_json() {
    let mut rand = RandState::new();

    // check specific lengths
    for len in lengths().into_iter() {
        for _ in 0..10 {
            let number = random_below_pow2(len, &mut rand);
            let bs = serde_json::to_string(&number).unwrap();
            let number_new: Wire = serde_json::from_str(&bs[..]).unwrap();
            assert_eq!(number, number_new);
        }
    }

    for _ in 0..100 {
        let bits = rug::Integer::from(1_000_000);
        let number = random_below_pow2(bits.to_u32().unwrap(), &mut rand);
        let bs = serde_json::to_string(&number).unwrap();
        let number_new: Wire = serde_json::from_str(&bs[..]).unwrap();
        assert_eq!(number, number_new);
    }
}

#[test]
fn json_is_the_list_of_digits() {
    let number = Wire(Integer::from(rug::Integer::from(0x0102_03u32)));
    assert_eq!(serde_json::to_string(&number).unwrap(), "[3,2,1]");
    let zero = Wire(Integer::from(rug::Integer::new()));
    assert_eq!(serde_json::to_string(&zero).unwrap(), "[]");
}

#[test]
fn bincode_is_length_then_digits() {
    let number = Wire(Integer::from(rug::Integer::from(0x0102_03u32)));
    let bs = bincode::serialize(&number).unwrap();
    assert_eq!(bs, vec![3u8, 0, 0, 0, 0, 0, 0, 0, 3, 2, 1]);
    let zero = Wire(Integer::from(rug::Integer::new()));
    assert_eq!(bincode::serialize(&zero).unwrap(), vec![0u8; 8]);
}

#[test]
fn json_zero_round_trips() {
    let zero: Wire = serde_json::from_str("[]").unwrap();
    assert_eq!(zero, Wire(Integer::from(rug::Integer::new())));
    let padded: Wire = serde_json::from_str("[0, 0]").unwrap();
    assert_eq!(padded, zero);
}

#[test]
fn json_invalid_element_is_an_error() {
    assert!(serde_json::from_str::<Wire>("[1, 300]").is_err());
    assert!(serde_json::from_str::<Wire>("[1, -1]").is_err());
    assert!(serde_json::from_str::<Wire>("[1, \"a\"]").is_err());
    assert!(serde_json::from_str::<Wire>("[1, 2").is_err());
    assert!(serde_json::from_str::<Wire>("7").is_err());
}

#[test]
fn bincode_truncated_sequence_is_an_error() {
    let number = Wire(Integer::from(rug::Integer::from(0x0102_03u32)));
    let bs = bincode::serialize(&number).unwrap();
    assert!(bincode::deserialize::<Wire>(&bs[..bs.len() - 1]).is_err());
}

#[test]
fn bincode_corrupted_length_is_an_error() {
    let bs = [0xffu8; 8];
    assert!(bincode::deserialize::<Wire>(&bs[..]).is_err());
    let mut long = vec![0xffu8; 8];
    long.push(7);
    assert!(bincode::deserialize::<Wire>(&long[..]).is_err());
}

#[test]
fn bincode_length_is_read_as_a_hint_for_the_buffer_only() {
    let mut digits: Vec<u8> = Vec::new();
    for i in 0..10_000u32 {
        digits.push((i % 255) as u8 + 1);
    }
    let number = Wire(Integer::from_digits(&digits));
    let bs = bincode::serialize(&number).unwrap();
    assert_eq!(bs.len(), 10_008);
    let back: Wire = bincode::deserialize(&bs[..]).unwrap();
    assert_eq!(back, number);
    assert_eq!(back.0.to_digits(), digits);
}

#[test]
fn two_reconstructions_are_equal() {
    let mut rand = RandState::new();
    let number = random_below_pow2(500, &mut rand);
    let bs = bincode::serialize(&number).unwrap();
    let first: Wire = bincode::deserialize(&bs[..]).unwrap();
    let second: Wire = bincode::deserialize(&bs[..]).unwrap();
    assert_eq!(first, second);
    assert_eq!(first, number);
    assert_eq!(second, number);
}

#[test]
fn million_bit_value_round_trips() {
    let top = rug::Integer::from(rug::Integer::u_pow_u(2, 1_000_000)) - 1u32;
    let number = Wire(Integer::from(top));
    assert_eq!(number.0.to_digits().len(), 125_000);
    let bs = bincode::serialize(&number).unwrap();
    assert_eq!(bs.len(), 125_008);
    let back: Wire = bincode::deserialize(&bs[..]).unwrap();
    assert_eq!(back, number);
    let text = serde_json::to_string(&number).unwrap();
    let back: Wire = serde_json::from_str(&text).unwrap();
    assert_eq!(back, number);
}
