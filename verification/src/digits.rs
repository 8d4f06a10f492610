//! The decimal digits of a number, lowest first.

use vstd::prelude::*;

verus! {

/// The decimal digits of a number, lowest first. Zero has the one digit 0.
pub open spec fn decimal_digits(number: nat) -> Seq<usize>
    decreases number,
{
    if number < 10 {
        seq![number as usize]
    } else {
        seq![(number % 10) as usize] + decimal_digits(number / 10)
    }
}

/// Every digit lies between 0 and 9, and there is at least one.
pub proof fn lemma_decimal_digits(number: nat)
    ensures
        decimal_digits(number).len() >= 1,
        forall|i: int| 0 <= i < decimal_digits(number).len() ==> decimal_digits(number)[i] <= 9,
    decreases number,
{
    if number >= 10 {
        lemma_decimal_digits(number / 10);
    }
}

/// Hands out the decimal digits of a number one by one, lowest first.
#[derive(Debug, Clone, Copy)]
pub struct DigitIterator {
    initial_value_is_zero: bool,
    number: usize,
}

impl DigitIterator {
    /// The digits that are still to come.
    pub closed spec fn remaining(&self) -> Seq<usize> {
        if self.initial_value_is_zero {
            seq![0usize]
        } else if self.number == 0 {
            Seq::empty()
        } else {
            decimal_digits(self.number as nat)
        }
    }

    /// An iterator over the digits of `number`.
    pub fn new(number: usize) -> (digits: Self)
        ensures
            digits.remaining() == decimal_digits(number as nat),
    {
        DigitIterator { initial_value_is_zero: number == 0, number }
    }

    /// The next digit, or none when all have been handed out.
    pub fn next(&mut self) -> (digit: Option<usize>)
        ensures
            old(self).remaining().len() == 0 ==> digit is None && final(self).remaining().len()
                == 0,
            old(self).remaining().len() > 0 ==> digit == Some(old(self).remaining()[0])
                && final(self).remaining() == old(self).remaining().drop_first(),
    {
        if self.initial_value_is_zero {
            self.initial_value_is_zero = false;
            self.number = 0;
            Some(0)
        } else if self.number == 0 {
            None
        } else {
            let digit = self.number % 10;
            self.number = self.number / 10;
            assert(self.remaining() =~= old(self).remaining().drop_first()) by {
                let before = old(self).number as nat;
                if before >= 10 {
                    assert(decimal_digits(before) == seq![(before % 10) as usize] + decimal_digits(
                        before / 10,
                    ));
                }
            }
            Some(digit)
        }
    }

    /// All the digits that are still to come, in order.
    pub fn collect(self) -> (digits: Vec<usize>)
        ensures
            digits@ == self.remaining(),
    {
        let mut iterator = self;
        let mut digits: Vec<usize> = Vec::new();
        loop
            invariant
                self.remaining() == digits@ + iterator.remaining(),
            ensures
                digits@ == self.remaining(),
            decreases iterator.remaining().len(),
        {
            match iterator.next() {
                Some(digit) => {
                    digits.push(digit);
                },
                None => {
                    break ;
                },
            }
        }
        digits
    }
}

/// The decimal digits of `number`, lowest first.
pub fn digits_of(number: usize) -> (digits: Vec<usize>)
    ensures
        digits@ == decimal_digits(number as nat),
        digits@.len() >= 1,
        forall|i: int| 0 <= i < digits@.len() ==> digits@[i] <= 9,
{
    proof {
        lemma_decimal_digits(number as nat);
    }
    DigitIterator::new(number).collect()
}

} // verus!
