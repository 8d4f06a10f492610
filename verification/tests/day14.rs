use advent_of_rust_2019::day14::{read_reactions, star_one, Component, Reaction, Reactor};

const TEST_REACTIONS: &'static [(&'static str, usize, Option<usize>)] = &[
    (
        "10 ORE => 10 A
1 ORE => 1 B
7 A, 1 B => 1 C
7 A, 1 C => 1 D
7 A, 1 D => 1 E
7 A, 1 E => 1 FUEL",
        31,
        None,
    ),
    (
        "9 ORE => 2 A
8 ORE => 3 B
7 ORE => 5 C
3 A, 4 B => 1 AB
5 B, 7 C => 1 BC
4 C, 1 A => 1 CA
2 AB, 3 BC, 4 CA => 1 FUEL",
        165,
        None,
    ),
    (
        "157 ORE => 5 NZVS
165 ORE => 6 DCFZ
44 XJWVT, 5 KHKGT, 1 QDVJ, 29 NZVS, 9 GPVTF, 48 HKGWZ => 1 FUEL
12 HKGWZ, 1 GPVTF, 8 PSHF => 9 QDVJ
179 ORE => 7 PSHF
177 ORE => 5 HKGWZ
7 DCFZ, 7 PSHF => 2 XJWVT
165 ORE => 2 GPVTF
3 DCFZ, 7 NZVS, 5 HKGWZ, 10 PSHF => 8 KHKGT",
        13312,
        Some(82892753),
    ),
    (
        "
2 VPVL, 7 FWMGM, 2 CXFTF, 11 MNCFX => 1 STKFG
17 NVRVD, 3 JNWZP => 8 VPVL
53 STKFG, 6 MNCFX, 46 VJHF, 81 HVMC, 68 CXFTF, 25 GNMV => 1 FUEL
22 VJHF, 37 MNCFX => 5 FWMGM
139 ORE => 4 NVRVD
144 ORE => 7 JNWZP
5 MNCFX, 7 RFSQX, 2 FWMGM, 2 VPVL, 19 CXFTF => 3 HVMC
5 VJHF, 7 MNCFX, 9 VPVL, 37 CXFTF => 6 GNMV
145 ORE => 6 MNCFX
1 NVRVD => 8 CXFTF
1 VJHF, 6 MNCFX => 4 RFSQX
176 ORE => 6 VJHF
",
        180697,
        Some(5586022),
    ),
    (
        "171 ORE => 8 CNZTR
7 ZLQW, 3 BMBT, 9 XCVML, 26 XMNCP, 1 WPTQ, 2 MZWV, 1 RJRHP => 4 PLWSL
114 ORE => 4 BHXH
14 VRPVC => 6 BMBT
6 BHXH, 18 KTJDG, 12 WPTQ, 7 PLWSL, 31 FHTLT, 37 ZDVW => 1 FUEL
6 WPTQ, 2 BMBT, 8 ZLQW, 18 KTJDG, 1 XMNCP, 6 MZWV, 1 RJRHP => 6 FHTLT
15 XDBXC, 2 LTCX, 1 VRPVC => 6 ZLQW
13 WPTQ, 10 LTCX, 3 RJRHP, 14 XMNCP, 2 MZWV, 1 ZLQW => 1 ZDVW
5 BMBT => 4 WPTQ
189 ORE => 9 KTJDG
1 MZWV, 17 XDBXC, 3 XCVML => 2 XMNCP
12 VRPVC, 27 CNZTR => 2 XDBXC
15 KTJDG, 12 BHXH => 5 XCVML
3 BHXH, 2 VRPVC => 7 MZWV
121 ORE => 7 VRPVC
7 XCVML => 6 RJRHP
5 BHXH, 4 VRPVC => 5 LTCX",
        2210736,
        Some(460664),
    ),
];

#[test]
fn day14_test_star_one() {
    for &(input, count, _) in TEST_REACTIONS {
        let result = star_one(input).unwrap();
        assert_eq!(
            result,
            count,
            "Expected {} to yield output {}. A difference of {}",
            input,
            count,
            (result as isize) - (count as isize),
        );
    }
}

fn chars(text: &str) -> Vec<char> {
    text.chars().collect()
}

#[test]
fn reading_reactions() {
    let reaction = Reaction::from_chars(&chars("  7 A, 1 B => 1 C ")).unwrap();
    assert_eq!(reaction.inputs.len(), 2);
    assert_eq!(reaction.inputs[0].reagent, chars("A"));
    assert_eq!(reaction.inputs[0].count, 7);
    assert_eq!(reaction.inputs[1].reagent, chars("B"));
    assert_eq!(reaction.inputs[1].count, 1);
    assert_eq!(reaction.output_reagent(), &chars("C")[..]);
    assert_eq!(reaction.output_count(), 1);
    assert!(!reaction.is_ore_reaction());
    assert!(Reaction::from_chars(&chars("10 ORE => 10 A")).unwrap().is_ore_reaction());
    assert!(!Reaction::from_chars(&chars("10 ORE, 1 B => 10 A")).unwrap().is_ore_reaction());
    assert!(!Reaction::from_chars(&chars("10 ore => 10 A")).unwrap().is_ore_reaction());
    // What follows the name of an input is not read.
    let reaction = Reaction::from_chars(&chars("7 A extra => 1 C")).unwrap();
    assert_eq!(reaction.inputs[0].reagent, chars("A"));
}

#[test]
fn reactions_that_cannot_be_read() {
    for text in [
        "",
        "7 A",
        "7 A => ",
        "=> 1 C",
        "7 A => 1 C => 2 D",
        "7 A => 1 C extra",
        "7 A => C",
        "7 A => one C",
        "A => 1 C",
        "7 A,, 1 B => 1 C",
        "7 A, => 1 C",
        "-7 A => 1 C",
        "seven A => 1 C",
    ] {
        assert!(Reaction::from_chars(&chars(text)).is_none(), "{}", text);
    }
    assert!(read_reactions("7 A => 1 C\nnonsense").is_none());
    assert_eq!(star_one("7 A => 1 C\nnonsense"), None);
}

#[test]
fn fuel_that_cannot_be_made() {
    // No reaction makes fuel.
    assert_eq!(star_one("1 ORE => 1 A"), None);
    // No reaction makes B.
    assert_eq!(star_one("1 B => 1 FUEL"), None);
    // A reaction that makes nothing.
    assert_eq!(star_one("1 ORE => 0 A\n1 A => 1 FUEL"), None);
    // Reactions in a circle.
    assert_eq!(star_one("1 A => 1 B\n1 B => 1 A\n1 A => 1 FUEL"), None);
    // More ore than a machine word holds.
    assert_eq!(
        star_one("18446744073709551615 ORE => 1 A\n2 A => 1 FUEL"),
        None
    );
    assert_eq!(star_one(""), None);
}

#[test]
fn of_two_reactions_for_one_chemical_the_later_counts() {
    assert_eq!(star_one("5 ORE => 1 FUEL\n3 ORE => 1 FUEL"), Some(3));
}

#[test]
fn a_reactor_uses_what_is_left_over() {
    let known = read_reactions("10 ORE => 4 A\n3 A => 1 FUEL").unwrap();
    let mut reactor = Reactor::new(known);
    let fuel = reactor.find_known_reaction(&chars("FUEL")).unwrap().duplicate();
    assert!(reactor.find_known_reaction(&chars("B")).is_none());
    // 3 A take one run of the first reaction; 1 A is left over.
    assert!(reactor.react(fuel.duplicate(), 1));
    assert_eq!(reactor.ore_used(), 10);
    // 3 A more: 1 is left over, 2 are missing, one run, 2 are left over.
    assert!(reactor.react(fuel.duplicate(), 1));
    assert_eq!(reactor.ore_used(), 20);
    // 3 A more: 2 are left over, 1 is missing, one run, 3 are left over.
    assert!(reactor.react(fuel.duplicate(), 1));
    assert_eq!(reactor.ore_used(), 30);
    // 3 A more: all are left over.
    assert!(reactor.react(fuel.duplicate(), 1));
    assert_eq!(reactor.ore_used(), 30);
    reactor.reset();
    assert_eq!(reactor.ore_used(), 0);
    // 7 fuel take 21 A, which take 6 runs.
    assert!(reactor.react(fuel, 7));
    assert_eq!(reactor.ore_used(), 60);
}

#[test]
fn making_nothing_takes_nothing() {
    let known = read_reactions("10 ORE => 4 A").unwrap();
    let mut reactor = Reactor::new(known);
    let a = reactor.find_known_reaction(&chars("A")).unwrap().duplicate();
    assert!(reactor.react(a.duplicate(), 0));
    assert_eq!(reactor.ore_used(), 0);
    assert!(reactor.react(a, 9));
    assert_eq!(reactor.ore_used(), 30);
    let unknown = Reaction {
        inputs: vec![Component::new(chars("ORE"), 2)],
        output: Component::new(chars("Z"), 1),
    };
    assert!(reactor.react(unknown, 5));
    assert_eq!(reactor.ore_used(), 40);
}
