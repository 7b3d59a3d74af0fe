//! Reading an integer from a sequence of elements, one element at a time.
//!
//! The sequence comes from a source that this library does not know: a
//! binary format, a textual one. Whoever drives the source asks it for the
//! next element, hands the answer to [`SeqDecoder::step`] as an [`Element`],
//! and does what the returned [`DecodeStep`] says. Writing needs no such
//! bookkeeping: the elements to write are `Integer::to_digits`, and their
//! number is known before the first one is written.

use crate::digits::{digits_value, trimmed};
use crate::integer::{Integer, MAX_DIGITS};
use vstd::prelude::*;

verus! {

/// The capacity that a decoder starts with where the source announces no
/// length.
pub const DEFAULT_CAPACITY: usize = 64;

/// The most that a decoder reserves on the word of the source. An announced
/// length may be wrong, so a longer one reserves this much and the buffer
/// grows as the digits come.
pub const MAX_RESERVED: usize = 4096;

/// The capacity that a decoder reserves for an announced length.
pub open spec fn reserved_for(size_hint: Option<usize>) -> usize {
    match size_hint {
        Some(n) => if n <= MAX_RESERVED { n } else { MAX_RESERVED },
        None => DEFAULT_CAPACITY,
    }
}

/// What a source answers when it is asked for the next element.
#[derive(Debug, Clone, Copy, PartialEq, Eq, Structural)]
pub enum Element {
    /// The next element, a digit.
    Digit(u8),
    /// The sequence is exhausted.
    End,
    /// The source could not read the next element as an 8-bit value.
    Invalid,
}

/// The sequence held something that is not a digit.
#[derive(Debug, Clone, Copy, PartialEq, Eq, Structural)]
pub struct FormatError {
    /// How many digits had been read before the offending element.
    pub position: usize,
}

/// The digits read so far from a sequence that is still being read.
#[derive(Debug)]
pub struct SeqDecoder {
    digits: Vec<u8>,
}

/// What to do after an element was handed to the decoder.
#[derive(Debug)]
pub enum DecodeStep {
    /// Ask the source for the next element and hand it to this decoder.
    Continue(SeqDecoder),
    /// The sequence is complete and denotes this integer.
    Done(Integer),
    /// The sequence is not valid. Nothing was built from it.
    Failed(FormatError),
}

/// The digits that `elements` starts with, up to its first element that is
/// not a digit.
pub open spec fn leading_digits(elements: Seq<Element>) -> Seq<u8>
    decreases elements.len(),
{
    if elements.len() == 0 {
        Seq::empty()
    } else {
        match elements[0] {
            Element::Digit(d) => seq![d] + leading_digits(elements.drop_first()),
            _ => Seq::empty(),
        }
    }
}

/// What comes of reading `elements` after the digits `start`: `None` where
/// the elements are all digits, so that the sequence has not ended yet;
/// all the digits read where the first element that is not a digit is the
/// end; the error where it is an invalid element.
pub open spec fn decoded(start: Seq<u8>, elements: Seq<Element>) -> Option<
    Result<Seq<u8>, FormatError>,
> {
    let lead = leading_digits(elements);
    if lead.len() >= elements.len() {
        None
    } else if elements[lead.len() as int] is End {
        Some(Ok(start + lead))
    } else {
        Some(Err((FormatError { position: (start.len() + lead.len()) as usize })))
    }
}

/// The leading digits are no more than the elements.
pub proof fn lemma_leading_digits_len(elements: Seq<Element>)
    ensures
        leading_digits(elements).len() <= elements.len(),
        leading_digits(elements).len() < elements.len() ==> !(elements[leading_digits(
            elements,
        ).len() as int] is Digit),
        forall|i: int|
            0 <= i < leading_digits(elements).len() ==> elements[i] == Element::Digit(
                #[trigger] leading_digits(elements)[i],
            ),
    decreases elements.len(),
{
    if elements.len() > 0 {
        let rest = elements.drop_first();
        lemma_leading_digits_len(rest);
        match elements[0] {
            Element::Digit(d) => {
                let lead = leading_digits(elements);
                assert(lead =~= seq![d] + leading_digits(rest));
                assert forall|i: int| 0 <= i < lead.len() implies elements[i] == Element::Digit(
                    #[trigger] lead[i],
                ) by {
                    if i > 0 {
                        assert(elements[i] == rest[i - 1]);
                        assert(lead[i] == leading_digits(rest)[i - 1]);
                    }
                }
                if lead.len() < elements.len() {
                    assert(elements[lead.len() as int] == rest[leading_digits(rest).len() as int]);
                }
            },
            _ => {},
        }
    }
}

/// Behind elements that are all digits, the leading digits go on with those
/// of what follows.
pub proof fn lemma_leading_digits_concat(front: Seq<Element>, back: Seq<Element>)
    requires
        leading_digits(front).len() == front.len(),
    ensures
        leading_digits(front + back) == leading_digits(front) + leading_digits(back),
    decreases front.len(),
{
    if front.len() == 0 {
        assert(front + back =~= back);
        assert(leading_digits(front) + leading_digits(back) =~= leading_digits(back));
    } else {
        let whole = front + back;
        let rest = front.drop_first();
        assert(whole[0] == front[0]);
        assert(whole.drop_first() =~= rest + back);
        match front[0] {
            Element::Digit(d) => {
                assert(leading_digits(front) =~= seq![d] + leading_digits(rest));
                lemma_leading_digits_concat(rest, back);
                assert(leading_digits(whole) =~= seq![d] + (leading_digits(rest) + leading_digits(
                    back,
                )));
                assert(seq![d] + (leading_digits(rest) + leading_digits(back)) =~= (seq![d]
                    + leading_digits(rest)) + leading_digits(back));
            },
            _ => {},
        }
    }
}

impl View for SeqDecoder {
    type V = Seq<u8>;

    /// The digits read so far, in the order in which they came.
    closed spec fn view(&self) -> Seq<u8> {
        self.digits@
    }
}

impl SeqDecoder {
    /// The capacity to reserve for a sequence whose source announces
    /// `size_hint`: the announced length up to `MAX_RESERVED`, and
    /// `DEFAULT_CAPACITY` where none is announced.
    pub fn capacity_for(size_hint: Option<usize>) -> (capacity: usize)
        ensures
            capacity == reserved_for(size_hint),
            capacity <= MAX_RESERVED,
    {
        match size_hint {
            Some(n) => if n <= MAX_RESERVED {
                n
            } else {
                MAX_RESERVED
            },
            None => DEFAULT_CAPACITY,
        }
    }

    /// A decoder that has read nothing yet. `size_hint` is the length that
    /// the source announces, if it announces one. It sizes the buffer, as
    /// `capacity_for` says, and decides nothing else: every hint is taken,
    /// and a sequence may be longer or shorter than announced.
    pub fn new(size_hint: Option<usize>) -> (decoder: SeqDecoder)
        ensures
            decoder@ == Seq::<u8>::empty(),
    {
        SeqDecoder { digits: Vec::with_capacity(Self::capacity_for(size_hint)) }
    }

    /// How many digits have been read so far.
    pub fn len(&self) -> (n: usize)
        ensures
            n == self@.len(),
    {
        self.digits.len()
    }

    /// Takes the source's answer and says how to go on. A digit is kept
    /// behind those read before. The end of the sequence yields the integer
    /// that the digits denote, least-significant digit first. An invalid
    /// element fails, whatever was read before it.
    pub fn step(self, element: Element) -> (next: DecodeStep)
        requires
            element is End ==> self@.len() <= MAX_DIGITS,
        ensures
            match element {
                Element::Digit(d) => next matches DecodeStep::Continue(decoder)
                    && decoder@ == self@.push(d),
                Element::End => next matches DecodeStep::Done(value)
                    && value@ == digits_value(self@)
                    && value.digits() == trimmed(self@),
                Element::Invalid => next == DecodeStep::Failed(
                    (FormatError { position: self@.len() as usize }),
                ),
            },
    {
        match element {
            Element::Digit(d) => {
                let mut digits = self.digits;
                digits.push(d);
                DecodeStep::Continue(SeqDecoder { digits })
            },
            Element::End => DecodeStep::Done(Integer::from_digits(self.digits.as_slice())),
            Element::Invalid => DecodeStep::Failed(FormatError { position: self.digits.len() }),
        }
    }

    /// Takes the elements in turn, as `step` does, until one of them ends
    /// the sequence or is invalid. What follows that element is not looked
    /// at. Where all of them are digits, the decoder that has read them
    /// comes back. Only a sequence that ends is held to `MAX_DIGITS`, by the
    /// digits that it has then.
    pub fn feed(self, elements: &[Element]) -> (next: DecodeStep)
        requires
            decoded(self@, elements@) matches Some(Ok(digits)) ==> digits.len() <= MAX_DIGITS,
        ensures
            match decoded(self@, elements@) {
                None => next matches DecodeStep::Continue(decoder)
                    && decoder@ == self@ + leading_digits(elements@),
                Some(Ok(digits)) => next matches DecodeStep::Done(value)
                    && value@ == digits_value(digits)
                    && value.digits() == trimmed(digits),
                Some(Err(error)) => next == DecodeStep::Failed(error),
            },
    {
        let ghost start = self@;
        let mut decoder = self;
        let mut i: usize = 0;
        proof {
            assert(elements@.take(0) =~= Seq::<Element>::empty());
            assert(start + leading_digits(elements@.take(0)) =~= start);
        }
        while i < elements.len()
            invariant
                start == self@,
                i <= elements@.len(),
                decoded(start, elements@) matches Some(Ok(digits)) ==> digits.len() <= MAX_DIGITS,
                leading_digits(elements@.take(i as int)).len() == i,
                decoder@ == start + leading_digits(elements@.take(i as int)),
            decreases elements@.len() - i,
        {
            let element = elements[i];
            let ghost read = elements@.take(i as int);
            proof {
                lemma_leading_digits_concat(read, elements@.skip(i as int));
                assert(read + elements@.skip(i as int) =~= elements@);
                assert(elements@.skip(i as int)[0] == element);
                lemma_leading_digits_concat(read, seq![element]);
                assert(read + seq![element] =~= elements@.take(i + 1));
                assert(seq![element].drop_first() =~= Seq::<Element>::empty());
                assert(leading_digits(seq![element].drop_first()) =~= Seq::<u8>::empty());
                if element is Digit {
                    assert(leading_digits(seq![element]) =~= seq![element->Digit_0]);
                } else {
                    assert(leading_digits(elements@.skip(i as int)) =~= Seq::<u8>::empty());
                    assert(leading_digits(elements@) =~= leading_digits(read));
                }
            }
            match decoder.step(element) {
                DecodeStep::Continue(longer) => {
                    decoder = longer;
                    i = i + 1;
                },
                stop => {
                    return stop;
                },
            }
        }
        proof {
            assert(elements@.take(i as int) =~= elements@);
        }
        DecodeStep::Continue(decoder)
    }
}

} // verus!
