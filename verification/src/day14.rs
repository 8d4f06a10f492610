//! A reactor that turns ore into fuel by way of chemical reactions, each
//! of which makes a fixed amount of one chemical from fixed amounts of others.

use crate::names::{same_text, NameMap};
use crate::parsing::{
    chars_of,
    fields,
    fields_of,
    parse_usize,
    spec_parse_usize,
    split,
    split_text,
    texts,
    trim,
    trimmed,
    words,
    words_of,
};
use vstd::prelude::*;

verus! {

/// The name of a chemical.
pub type Name = Seq<char>;

/// The name of the raw material.
pub open spec fn ore() -> Name {
    seq!['O', 'R', 'E']
}

/// The name of the product.
pub open spec fn fuel() -> Name {
    seq!['F', 'U', 'E', 'L']
}

/// An amount of a chemical, as the contracts speak of it.
pub struct Amount {
    pub reagent: Name,
    pub count: usize,
}

/// A reaction, as the contracts speak of it.
pub struct Recipe {
    pub inputs: Seq<Amount>,
    pub output: Amount,
}

/// An amount of a chemical.
#[derive(Debug)]
pub struct Component {
    pub reagent: Vec<char>,
    pub count: usize,
}

impl View for Component {
    type V = Amount;

    open spec fn view(&self) -> Amount {
        Amount { reagent: self.reagent@, count: self.count }
    }
}

impl Component {
    /// The amount `count` of the chemical `reagent`.
    pub fn new(reagent: Vec<char>, count: usize) -> (component: Self)
        ensures
            component@ == (Amount { reagent: reagent@, count }),
    {
        Self { reagent, count }
    }

    /// A copy of this amount.
    pub fn duplicate(&self) -> (copy: Self)
        ensures
            copy@ == self@,
    {
        Component { reagent: self.reagent.clone(), count: self.count }
    }
}

/// A reaction: what goes in, and what comes out.
#[derive(Debug)]
pub struct Reaction {
    pub inputs: Vec<Component>,
    pub output: Component,
}

/// The views of a list of amounts.
pub open spec fn amounts(components: Seq<Component>) -> Seq<Amount> {
    components.map_values(|component: Component| component@)
}

impl View for Reaction {
    type V = Recipe;

    open spec fn view(&self) -> Recipe {
        Recipe { inputs: amounts(self.inputs@), output: self.output@ }
    }
}

impl Recipe {
    /// Whether the reaction makes its output from ore alone.
    pub open spec fn is_ore_reaction(self) -> bool {
        self.inputs.len() == 1 && self.inputs[0].reagent == ore()
    }
}

/// The amount that a text such as `7 A` stands for: an unsigned number
/// and a name, with white space between them; what follows the name is
/// not read. There is none where the text has fewer than two words or the
/// first is no number.
pub open spec fn spec_amount(text: Seq<char>) -> Option<Amount> {
    let segments = words(text);
    if segments.len() < 2 {
        None
    } else {
        match spec_parse_usize(segments[0]) {
            Some(count) => Some(Amount { reagent: segments[1], count }),
            None => None,
        }
    }
}

/// The amounts that the pieces stand for, or none where one stands for none.
pub open spec fn spec_amounts(pieces: Seq<Seq<char>>) -> Option<Seq<Amount>>
    decreases pieces.len(),
{
    if pieces.len() == 0 {
        Some(Seq::empty())
    } else {
        match (spec_amounts(pieces.drop_last()), spec_amount(pieces.last())) {
            (Some(before), Some(amount)) => Some(before.push(amount)),
            _ => None,
        }
    }
}

/// The reaction that a text such as `7 A, 1 B => 1 C` stands for. The
/// text must hold two parts around `=>`, apart from white space; the first
/// holds the inputs with commas between them, the second the output, which
/// must be exactly two words.
pub open spec fn spec_reaction(text: Seq<char>) -> Option<Recipe> {
    let parts = fields(trim(text), seq!['=', '>']);
    if parts.len() != 2 {
        None
    } else if words(parts[1]).len() != 2 {
        None
    } else {
        match (spec_amounts(split(parts[0], seq![','])), spec_amount(parts[1])) {
            (Some(inputs), Some(output)) => Some(Recipe { inputs, output }),
            _ => None,
        }
    }
}

proof fn lemma_amounts_fail(pieces: Seq<Seq<char>>, index: int)
    requires
        0 <= index < pieces.len(),
        spec_amount(pieces[index]) is None,
    ensures
        spec_amounts(pieces) is None,
    decreases pieces.len(),
{
    if index < pieces.len() - 1 {
        lemma_amounts_fail(pieces.drop_last(), index);
    }
}

/// Reads an amount from a text such as `7 A`.
fn read_amount(text: &[char]) -> (component: Option<Component>)
    ensures
        match component {
            Some(read) => spec_amount(text@) == Some(read@),
            None => spec_amount(text@) is None,
        },
{
    let mut segments = words_of(text);
    if segments.len() < 2 {
        return None;
    }
    let count = match parse_usize(segments[0].as_slice()) {
        Some(count) => count,
        None => { return None; },
    };
    let reagent = segments.swap_remove(1);
    Some(Component::new(reagent, count))
}

impl Reaction {
    /// Whether the reaction makes its output from ore alone.
    pub fn is_ore_reaction(&self) -> (from_ore: bool)
        ensures
            from_ore == self@.is_ore_reaction(),
    {
        let mut name: Vec<char> = Vec::new();
        name.push('O');
        name.push('R');
        name.push('E');
        assert(name@ =~= ore());
        if self.inputs.len() == 1 {
            same_text(self.inputs[0].reagent.as_slice(), name.as_slice())
        } else {
            false
        }
    }

    /// How much of its output the reaction makes.
    pub fn output_count(&self) -> (count: usize)
        ensures
            count == self@.output.count,
    {
        self.output.count
    }

    /// The name of the chemical that the reaction makes.
    pub fn output_reagent(&self) -> (name: &[char])
        ensures
            name@ == self@.output.reagent,
    {
        self.output.reagent.as_slice()
    }

    /// A copy of this reaction.
    pub fn duplicate(&self) -> (copy: Self)
        ensures
            copy@ == self@,
    {
        let mut inputs: Vec<Component> = Vec::new();
        let mut index: usize = 0;
        while index < self.inputs.len()
            invariant
                index <= self.inputs@.len(),
                inputs@.len() == index,
                forall|i: int| 0 <= i < index ==> (#[trigger] inputs@[i])@ == self.inputs@[i]@,
            decreases self.inputs@.len() - index,
        {
            inputs.push(self.inputs[index].duplicate());
            index = index + 1;
        }
        assert(amounts(inputs@) =~= amounts(self.inputs@));
        Reaction { inputs, output: self.output.duplicate() }
    }

    /// Reads a reaction from a text such as `7 A, 1 B => 1 C`.
    pub fn from_chars(input: &[char]) -> (reaction: Option<Self>)
        ensures
            match reaction {
                Some(read) => spec_reaction(input@) == Some(read@),
                None => spec_reaction(input@) is None,
            },
    {
        let clean = trimmed(input);
        let mut arrow: Vec<char> = Vec::new();
        arrow.push('=');
        arrow.push('>');
        assert(arrow@ =~= seq!['=', '>']);
        let mut comma: Vec<char> = Vec::new();
        comma.push(',');
        let parts = fields_of(clean.as_slice(), arrow.as_slice());
        if parts.len() != 2 {
            return None;
        }
        let pieces = split_text(parts[0].as_slice(), comma.as_slice());
        let mut inputs: Vec<Component> = Vec::new();
        let mut index: usize = 0;
        while index < pieces.len()
            invariant
                index <= pieces@.len(),
                texts(pieces@) == split(parts@[0]@, seq![',']),
                texts(parts@) == fields(trim(input@), seq!['=', '>']),
                parts@.len() == 2,
                spec_amounts(texts(pieces@).take(index as int)) == Some(amounts(inputs@)),
            decreases pieces@.len() - index,
        {
            proof {
                let done = texts(pieces@).take(index + 1);
                assert(done.drop_last() =~= texts(pieces@).take(index as int));
            }
            match read_amount(pieces[index].as_slice()) {
                Some(component) => {
                    inputs.push(component);
                },
                None => {
                    proof {
                        lemma_amounts_fail(texts(pieces@), index as int);
                    }
                    return None;
                },
            }
            index = index + 1;
        }
        assert(texts(pieces@).take(pieces@.len() as int) =~= texts(pieces@));
        let output_segments = words_of(parts[1].as_slice());
        if output_segments.len() != 2 {
            return None;
        }
        match read_amount(parts[1].as_slice()) {
            Some(output) => Some(Reaction { inputs, output }),
            None => None,
        }
    }
}

/// What a reactor holds, as the contracts speak of it.
pub struct ReactorState {
    /// What is left over of each chemical that has been made.
    pub leftovers: Map<Name, usize>,
    pub ore_used: usize,
}

/// Whether a number fits an unsigned machine word.
pub open spec fn fits(value: int) -> bool {
    0 <= value <= usize::MAX
}

/// How often a reaction that makes `output_count` at a time has to run
/// to make at least `required`.
pub open spec fn reactions_needed(required: int, output_count: int) -> int
    recommends
        output_count > 0,
{
    (required + output_count - 1) / output_count
}

impl ReactorState {
    /// What is left over of a chemical: nothing where none has been noted.
    pub open spec fn leftover(self, reagent: Name) -> usize {
        if self.leftovers.contains_key(reagent) {
            self.leftovers[reagent]
        } else {
            0
        }
    }

    /// The state with `amount` left over of `reagent`.
    pub open spec fn with_leftover(self, reagent: Name, amount: usize) -> Self {
        ReactorState { leftovers: self.leftovers.insert(reagent, amount), ..self }
    }

    /// The reactor after it has made `required` of the output of
    /// `reaction`. What is left over of the output is used first. Where
    /// that does not suffice, the reaction runs as often as needed: for a
    /// reaction from ore the ore is counted; for any other, each input is
    /// made first, in order, by the reaction that is known for it. What the
    /// runs make beyond the need is left over. There is none where a
    /// reaction makes nothing, where an input has no reaction, where the
    /// reactions lead more than `depth` levels down, or where a number does
    /// not fit a machine word.
    pub open spec fn react(
        self,
        known: Map<Name, Recipe>,
        reaction: Recipe,
        required: usize,
        depth: nat,
    ) -> Option<Self>
        decreases depth, reaction.inputs.len() + 1,
    {
        let reagent = reaction.output.reagent;
        let at_hand = self.leftover(reagent);
        if required <= at_hand {
            Some(self.with_leftover(reagent, (at_hand - required) as usize))
        } else {
            let start = if at_hand > 0 {
                self.with_leftover(reagent, 0)
            } else {
                self
            };
            let missing = required - at_hand;
            if reaction.output.count == 0 {
                None
            } else {
                let runs = reactions_needed(missing, reaction.output.count as int);
                let made = runs * reaction.output.count;
                if !fits(made) {
                    None
                } else if reaction.is_ore_reaction() {
                    let ore_used = start.ore_used + runs * reaction.inputs[0].count;
                    let left = start.leftover(reagent) + (made - missing);
                    if fits(ore_used) && fits(left) {
                        Some(
                            ReactorState {
                                leftovers: start.leftovers.insert(reagent, left as usize),
                                ore_used: ore_used as usize,
                            },
                        )
                    } else {
                        None
                    }
                } else {
                    match start.react_inputs(known, reaction.inputs, 0, runs as usize, depth) {
                        Some(after) => {
                            let left = after.leftover(reagent) + (made - missing);
                            if fits(left) {
                                Some(after.with_leftover(reagent, left as usize))
                            } else {
                                None
                            }
                        },
                        None => None,
                    }
                }
            }
        }
    }

    /// The reactor after it has made what `runs` runs of a reaction need
    /// of each of the inputs from number `from` on.
    pub open spec fn react_inputs(
        self,
        known: Map<Name, Recipe>,
        inputs: Seq<Amount>,
        from: int,
        runs: usize,
        depth: nat,
    ) -> Option<Self>
        decreases depth, inputs.len() - from,
    {
        if from < 0 || from >= inputs.len() {
            Some(self)
        } else {
            let input = inputs[from];
            if depth == 0 || !known.contains_key(input.reagent) || !fits(input.count * runs) {
                None
            } else {
                match self.react(
                    known,
                    known[input.reagent],
                    (input.count * runs) as usize,
                    (depth - 1) as nat,
                ) {
                    Some(after) => after.react_inputs(known, inputs, from + 1, runs, depth),
                    None => None,
                }
            }
        }
    }
}

/// The views of the reactions of a map.
pub open spec fn recipes(known: Map<Name, Reaction>) -> Map<Name, Recipe> {
    known.map_values(|reaction: Reaction| reaction@)
}

/// How often a reaction that makes `output_count` at a time has to run
/// to make at least `required`.
fn runs_needed(required: usize, output_count: usize) -> (runs: usize)
    requires
        output_count > 0,
    ensures
        runs == reactions_needed(required as int, output_count as int),
{
    let whole = required / output_count;
    let rest = required % output_count;
    proof {
        vstd::arithmetic::div_mod::lemma_fundamental_div_mod(required as int, output_count as int);
        let total = required + output_count - 1;
        if rest == 0 {
            assert(total == whole * output_count + (output_count - 1)) by (nonlinear_arith)
                requires
                    required == output_count * whole + rest,
                    rest == 0,
                    total == required + output_count - 1,
            ;
            vstd::arithmetic::div_mod::lemma_fundamental_div_mod_converse(
                total,
                output_count as int,
                whole as int,
                output_count - 1,
            );
        } else {
            assert(total == (whole + 1) * output_count + (rest - 1)) by (nonlinear_arith)
                requires
                    required == output_count * whole + rest,
                    total == required + output_count - 1,
            ;
            vstd::arithmetic::div_mod::lemma_fundamental_div_mod_converse(
                total,
                output_count as int,
                whole + 1,
                rest - 1,
            );
            assert(whole < usize::MAX) by (nonlinear_arith)
                requires
                    required == output_count * whole + rest,
                    rest > 0,
                    output_count > 0,
                    required <= usize::MAX,
            ;
        }
    }
    if rest == 0 {
        whole
    } else {
        whole + 1
    }
}

/// Makes `required` of the output of `reaction`. The result is false
/// where that cannot be done; the state is then left as the attempt has
/// left it.
fn react_within(
    known: &NameMap<Reaction>,
    leftovers: &mut NameMap<usize>,
    ore_used: &mut usize,
    reaction: &Reaction,
    required_output_count: usize,
    depth: usize,
) -> (done: bool)
    requires
        known.wf(),
        old(leftovers).wf(),
    ensures
        final(leftovers).wf(),
        match (ReactorState { leftovers: old(leftovers)@, ore_used: *old(ore_used) }).react(
            recipes(known@),
            reaction@,
            required_output_count,
            depth as nat,
        ) {
            Some(after) => done && final(leftovers)@ == after.leftovers && *final(ore_used)
                == after.ore_used,
            None => !done,
        },
    decreases depth, reaction.inputs@.len() + 1,
{
    let ghost start = ReactorState { leftovers: leftovers@, ore_used: *ore_used };
    let reagent = reaction.output.reagent.as_slice();
    let leftover_for_output: usize = match leftovers.get(reagent) {
        Some(amount) => *amount,
        None => 0,
    };
    let mut required = required_output_count;
    if required <= leftover_for_output {
        leftovers.insert(reaction.output.reagent.clone(), leftover_for_output - required);
        return true;
    } else if leftover_for_output > 0 {
        leftovers.insert(reaction.output.reagent.clone(), 0);
        required = required - leftover_for_output;
    }
    if reaction.output.count == 0 {
        return false;
    }
    let required_reactions = runs_needed(required, reaction.output.count);
    let output_count = match required_reactions.checked_mul(reaction.output.count) {
        Some(made) => made,
        None => { return false; },
    };
    assert(output_count >= required) by (nonlinear_arith)
        requires
            output_count == required_reactions * reaction.output.count,
            required_reactions == (required + reaction.output.count - 1) / (
            reaction.output.count as int),
            reaction.output.count > 0,
    ;
    let leftover = output_count - required;
    if reaction.is_ore_reaction() {
        let used = match required_reactions.checked_mul(reaction.inputs[0].count) {
            Some(used) => ore_used.checked_add(used),
            None => None,
        };
        let at_hand: usize = match leftovers.get(reagent) {
            Some(amount) => *amount,
            None => 0,
        };
        match (used, at_hand.checked_add(leftover)) {
            (Some(total), Some(left)) => {
                leftovers.insert(reaction.output.reagent.clone(), left);
                *ore_used = total;
                true
            },
            _ => false,
        }
    } else {
        let ghost middle = ReactorState { leftovers: leftovers@, ore_used: *ore_used };
        let ghost outcome = start.react(
            recipes(known@),
            reaction@,
            required_output_count,
            depth as nat,
        );
        let ghost name = reaction@.output.reagent;
        assert(outcome == match middle.react_inputs(
            recipes(known@),
            reaction@.inputs,
            0,
            required_reactions,
            depth as nat,
        ) {
            Some(after) => if fits(after.leftover(name) + leftover) {
                Some(after.with_leftover(name, (after.leftover(name) + leftover) as usize))
            } else {
                None
            },
            None => None,
        });
        let mut index: usize = 0;
        while index < reaction.inputs.len()
            invariant
                index <= reaction.inputs@.len(),
                known.wf(),
                leftovers.wf(),
                name == reaction@.output.reagent,
                reagent@ == name,
                outcome == match middle.react_inputs(
                    recipes(known@),
                    reaction@.inputs,
                    0,
                    required_reactions,
                    depth as nat,
                ) {
                    Some(after) => if fits(after.leftover(name) + leftover) {
                        Some(after.with_leftover(name, (after.leftover(name) + leftover) as usize))
                    } else {
                        None
                    },
                    None => None,
                },
                outcome == (ReactorState {
                    leftovers: old(leftovers)@,
                    ore_used: *old(ore_used),
                }).react(recipes(known@), reaction@, required_output_count, depth as nat),
                middle.react_inputs(
                    recipes(known@),
                    reaction@.inputs,
                    0,
                    required_reactions,
                    depth as nat,
                ) == (ReactorState { leftovers: leftovers@, ore_used: *ore_used }).react_inputs(
                    recipes(known@),
                    reaction@.inputs,
                    index as int,
                    required_reactions,
                    depth as nat,
                ),
            decreases reaction.inputs@.len() - index,
        {
            let input = &reaction.inputs[index];
            if depth == 0 {
                return false;
            }
            let amount = match input.count.checked_mul(required_reactions) {
                Some(amount) => amount,
                None => { return false; },
            };
            let next = match known.get(input.reagent.as_slice()) {
                Some(next) => next,
                None => { return false; },
            };
            if !react_within(known, leftovers, ore_used, next, amount, depth - 1) {
                return false;
            }
            index = index + 1;
        }
        let at_hand: usize = match leftovers.get(reagent) {
            Some(amount) => *amount,
            None => 0,
        };
        match at_hand.checked_add(leftover) {
            Some(left) => {
                leftovers.insert(reaction.output.reagent.clone(), left);
                true
            },
            None => false,
        }
    }
}

/// A reactor: the reactions that it knows, what it has left over of each
/// chemical, and how much ore it has used.
pub struct Reactor {
    leftovers: NameMap<usize>,
    known_reactions: NameMap<Reaction>,
    ore_used: usize,
}

impl View for Reactor {
    type V = ReactorState;

    closed spec fn view(&self) -> ReactorState {
        ReactorState { leftovers: self.leftovers@, ore_used: self.ore_used }
    }
}

impl Reactor {
    /// Whether the reactor's maps are in order.
    pub closed spec fn wf(&self) -> bool {
        self.leftovers.wf() && self.known_reactions.wf()
    }

    /// The reactions that the reactor knows, by the name of what they make.
    pub closed spec fn known(&self) -> Map<Name, Recipe> {
        recipes(self.known_reactions@)
    }

    /// How many reactions the reactor knows: no chain of reactions that
    /// does not go in a circle is longer.
    pub closed spec fn depth(&self) -> nat {
        self.known_reactions.keys().len()
    }

    /// The number of reactions is the number of chemicals that they make.
    pub proof fn lemma_depth(&self)
        requires
            self.wf(),
        ensures
            self.known().dom().finite(),
            self.depth() == self.known().dom().len(),
    {
        self.known_reactions.lemma_keys();
        assert(self.known().dom() =~= self.known_reactions@.dom());
    }

    /// A reactor that knows the given reactions and has made nothing yet.
    pub fn new(known_reactions: NameMap<Reaction>) -> (reactor: Self)
        requires
            known_reactions.wf(),
        ensures
            reactor.wf(),
            reactor.known() == recipes(known_reactions@),
            reactor.depth() == known_reactions.keys().len(),
            reactor@ == (ReactorState { leftovers: Map::empty(), ore_used: 0 }),
    {
        Self { leftovers: NameMap::new(), known_reactions, ore_used: 0 }
    }

    /// Forgets what has been made: nothing is left over, no ore is used.
    pub fn reset(&mut self)
        requires
            old(self).wf(),
        ensures
            final(self).wf(),
            final(self).known() == old(self).known(),
            final(self).depth() == old(self).depth(),
            final(self)@ == (ReactorState { leftovers: Map::empty(), ore_used: 0 }),
    {
        self.ore_used = 0;
        self.leftovers.clear();
    }

    /// How much ore the reactor has used.
    pub fn ore_used(&self) -> (ore: usize)
        ensures
            ore == self@.ore_used,
    {
        self.ore_used
    }

    /// Makes `required_output_count` of the output of `reaction`. The
    /// result is false where that cannot be done; the reactor is then left
    /// as the attempt has left it.
    pub fn react(&mut self, reaction: Reaction, required_output_count: usize) -> (done: bool)
        requires
            old(self).wf(),
        ensures
            final(self).wf(),
            final(self).known() == old(self).known(),
            final(self).depth() == old(self).depth(),
            match old(self)@.react(
                old(self).known(),
                reaction@,
                required_output_count,
                old(self).depth(),
            ) {
                Some(after) => done && final(self)@ == after,
                None => !done,
            },
    {
        let depth = self.known_reactions.len();
        react_within(
            &self.known_reactions,
            &mut self.leftovers,
            &mut self.ore_used,
            &reaction,
            required_output_count,
            depth,
        )
    }

    /// The reaction that makes `output_reagent`, if one is known.
    pub fn find_known_reaction(&self, output_reagent: &[char]) -> (reaction: Option<&Reaction>)
        requires
            self.wf(),
        ensures
            match reaction {
                Some(found) => self.known().contains_key(output_reagent@) && found@
                    == self.known()[output_reagent@],
                None => !self.known().contains_key(output_reagent@),
            },
    {
        self.known_reactions.get(output_reagent)
    }
}

/// The reactions that the lines stand for, by the name of what they make;
/// of two that make the same the later one counts. There is none where a
/// line stands for no reaction.
pub open spec fn known_recipes(lines: Seq<Seq<char>>) -> Option<Map<Name, Recipe>>
    decreases lines.len(),
{
    if lines.len() == 0 {
        Some(Map::empty())
    } else {
        match (known_recipes(lines.drop_last()), spec_reaction(lines.last())) {
            (Some(before), Some(recipe)) => Some(before.insert(recipe.output.reagent, recipe)),
            _ => None,
        }
    }
}

proof fn lemma_known_recipes_fail(lines: Seq<Seq<char>>, index: int)
    requires
        0 <= index < lines.len(),
        spec_reaction(lines[index]) is None,
    ensures
        known_recipes(lines) is None,
    decreases lines.len(),
{
    if index < lines.len() - 1 {
        lemma_known_recipes_fail(lines.drop_last(), index);
    }
}

/// Reads the reactions of a text, one to a line; empty lines are skipped.
pub fn read_reactions(input: &str) -> (reactions: Option<NameMap<Reaction>>)
    ensures
        match reactions {
            Some(known) => known.wf() && known_recipes(fields(input@, seq!['\n'])) == Some(
                recipes(known@),
            ),
            None => known_recipes(fields(input@, seq!['\n'])) is None,
        },
{
    let text = chars_of(input);
    let mut feed: Vec<char> = Vec::new();
    feed.push('\n');
    let lines = fields_of(text.as_slice(), feed.as_slice());
    let mut known: NameMap<Reaction> = NameMap::new();
    let mut index: usize = 0;
    while index < lines.len()
        invariant
            index <= lines@.len(),
            known.wf(),
            texts(lines@) == fields(input@, seq!['\n']),
            known_recipes(texts(lines@).take(index as int)) == Some(recipes(known@)),
        decreases lines@.len() - index,
    {
        proof {
            let done = texts(lines@).take(index + 1);
            assert(done.drop_last() =~= texts(lines@).take(index as int));
        }
        match Reaction::from_chars(lines[index].as_slice()) {
            Some(reaction) => {
                let ghost before = known@;
                let name = reaction.output.reagent.clone();
                known.insert(name, reaction);
                assert(recipes(known@) =~= recipes(before).insert(
                    reaction@.output.reagent,
                    reaction@,
                ));
            },
            None => {
                proof {
                    lemma_known_recipes_fail(texts(lines@), index as int);
                }
                return None;
            },
        }
        index = index + 1;
    }
    assert(texts(lines@).take(lines@.len() as int) =~= texts(lines@));
    Some(known)
}

/// The ore that one unit of fuel takes with the reactions in `text`, from
/// a reactor that has nothing left over. There is none where the text
/// cannot be read, where no reaction makes fuel, or where the fuel cannot
/// be made.
pub open spec fn spec_star_one(text: Seq<char>) -> Option<usize> {
    match known_recipes(fields(text, seq!['\n'])) {
        Some(known) => if known.contains_key(fuel()) {
            match (ReactorState { leftovers: Map::empty(), ore_used: 0 }).react(
                known,
                known[fuel()],
                1,
                known.dom().len(),
            ) {
                Some(after) => Some(after.ore_used),
                None => None,
            }
        } else {
            None
        },
        None => None,
    }
}

/// The ore that one unit of fuel takes with the reactions in `input`.
pub fn star_one(input: &str) -> (ore: Option<usize>)
    ensures
        ore == spec_star_one(input@),
{
    let reactions = match read_reactions(input) {
        Some(reactions) => reactions,
        None => { return None; },
    };
    let mut reactor = Reactor::new(reactions);
    proof {
        reactor.lemma_depth();
    }
    let mut product: Vec<char> = Vec::new();
    product.push('F');
    product.push('U');
    product.push('E');
    product.push('L');
    assert(product@ =~= fuel());
    let reaction = match reactor.find_known_reaction(product.as_slice()) {
        Some(reaction) => reaction.duplicate(),
        None => { return None; },
    };
    if reactor.react(reaction, 1) {
        Some(reactor.ore_used())
    } else {
        None
    }
}

} // verus!
