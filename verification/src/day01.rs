//! Fuel for a list of module masses.

use crate::parsing::{chars_of, fields, fields_of, parse_i64, spec_parse_i64, texts};
use vstd::prelude::*;

verus! {

/// The quotient of a division that rounds towards zero.
pub open spec fn truncated_quotient(dividend: int, divisor: int) -> int
    recommends
        divisor > 0,
{
    if dividend >= 0 {
        dividend / divisor
    } else {
        -((-dividend) / divisor)
    }
}

/// The fuel that a mass needs: a third of it, rounded towards zero, less two.
pub open spec fn spec_fuel(mass: int) -> int {
    truncated_quotient(mass, 3) - 2
}

/// The fuel that a mass needs, and the fuel which that fuel needs, and so
/// on, as long as the need is above zero.
pub open spec fn spec_recursive_fuel(mass: int) -> int
    decreases mass,
{
    if spec_fuel(mass) > 0 {
        spec_fuel(mass) + spec_recursive_fuel(spec_fuel(mass))
    } else {
        0
    }
}

/// The fuel that a mass needs.
pub fn fuel(mass: i64) -> (needed: i64)
    ensures
        needed == spec_fuel(mass as int),
{
    if mass >= 0 {
        mass / 3 - 2
    } else if mass == i64::MIN {
        -(i64::MAX / 3) - 2
    } else {
        -((-mass) / 3) - 2
    }
}

proof fn lemma_recursive_fuel_bound(mass: int)
    ensures
        0 <= spec_recursive_fuel(mass),
        mass >= 0 ==> spec_recursive_fuel(mass) <= mass,
    decreases mass,
{
    if spec_fuel(mass) > 0 {
        lemma_recursive_fuel_bound(spec_fuel(mass));
    }
}

/// Adds to `acc` the fuel that a mass needs, with the fuel for the fuel.
pub fn recursive_fuel(mass: i64, acc: i64) -> (total: i64)
    requires
        acc + spec_recursive_fuel(mass as int) <= i64::MAX,
    ensures
        total == acc + spec_recursive_fuel(mass as int),
    decreases mass,
{
    let new_mass = fuel(mass);
    if new_mass > 0 {
        proof {
            lemma_recursive_fuel_bound(new_mass as int);
        }
        recursive_fuel(new_mass, acc + new_mass)
    } else {
        acc
    }
}

/// The fuel for one module.
pub open spec fn module_fuel(mass: int, with_fuel_for_fuel: bool) -> int {
    if with_fuel_for_fuel {
        spec_recursive_fuel(mass)
    } else {
        spec_fuel(mass)
    }
}

/// The sum of the fuel for the masses that the fields stand for. There is
/// none where a field is no 64-bit integer, or where the sum leaves the
/// range of one as the fields are added first to last.
pub open spec fn total_fuel(masses: Seq<Seq<char>>, with_fuel_for_fuel: bool) -> Option<i64>
    decreases masses.len(),
{
    if masses.len() == 0 {
        Some(0)
    } else {
        match (total_fuel(masses.drop_last(), with_fuel_for_fuel), spec_parse_i64(masses.last())) {
            (Some(sum), Some(mass)) => {
                let total = sum + module_fuel(mass as int, with_fuel_for_fuel);
                if i64::MIN <= total <= i64::MAX {
                    Some(total as i64)
                } else {
                    None
                }
            },
            _ => None,
        }
    }
}

proof fn lemma_total_fuel_fails(masses: Seq<Seq<char>>, with_fuel_for_fuel: bool, shorter: int)
    requires
        0 <= shorter <= masses.len(),
        total_fuel(masses.take(shorter), with_fuel_for_fuel) is None,
    ensures
        total_fuel(masses, with_fuel_for_fuel) is None,
    decreases masses.len(),
{
    if shorter == masses.len() {
        assert(masses.take(shorter) =~= masses);
    } else {
        assert(masses.drop_last().take(shorter) =~= masses.take(shorter));
        lemma_total_fuel_fails(masses.drop_last(), with_fuel_for_fuel, shorter);
    }
}

/// Sums the fuel for the masses in `input`, one to a line.
fn sum_fuel(input: &str, with_fuel_for_fuel: bool) -> (total: Option<i64>)
    ensures
        total == total_fuel(fields(input@, seq!['\n']), with_fuel_for_fuel),
{
    let text = chars_of(input);
    let mut separator: Vec<char> = Vec::new();
    separator.push('\n');
    let masses = fields_of(text.as_slice(), separator.as_slice());
    let ghost lines = texts(masses@);
    let mut sum: i64 = 0;
    let mut index: usize = 0;
    while index < masses.len()
        invariant
            index <= masses@.len(),
            lines == texts(masses@),
            lines == fields(input@, seq!['\n']),
            total_fuel(lines.take(index as int), with_fuel_for_fuel) == Some(sum),
        decreases masses@.len() - index,
    {
        proof {
            let done = lines.take(index + 1);
            assert(done.drop_last() =~= lines.take(index as int));
        }
        let needed = match parse_i64(masses[index].as_slice()) {
            Some(mass) => if with_fuel_for_fuel {
                proof {
                    lemma_recursive_fuel_bound(mass as int);
                }
                recursive_fuel(mass, 0)
            } else {
                fuel(mass)
            },
            None => {
                proof {
                    lemma_total_fuel_fails(lines, with_fuel_for_fuel, index + 1);
                }
                return None;
            },
        };
        sum = match sum.checked_add(needed) {
            Some(total) => total,
            None => {
                proof {
                    lemma_total_fuel_fails(lines, with_fuel_for_fuel, index + 1);
                }
                return None;
            },
        };
        index = index + 1;
    }
    assert(lines.take(masses@.len() as int) =~= lines);
    Some(sum)
}

/// The fuel that the modules need, given their masses, one to a line.
pub fn star_one(input: &str) -> (total: Option<i64>)
    ensures
        total == total_fuel(fields(input@, seq!['\n']), false),
{
    sum_fuel(input, false)
}

/// The fuel that the modules and their fuel need, given the modules'
/// masses, one to a line.
pub fn star_two(input: &str) -> (total: Option<i64>)
    ensures
        total == total_fuel(fields(input@, seq!['\n']), true),
{
    sum_fuel(input, true)
}

} // verus!
