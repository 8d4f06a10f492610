//! The hull of a ship that a robot paints: the panels that have been
//! painted, with their colours, and the panel on which the robot stands.
//!
//! The robot's heading is an angle and is kept outside this library; here
//! the robot is moved by a step that is handed in.

use crate::grid::PointMap;
use vstd::prelude::*;
use vstd::string::StringExecFns;

verus! {

/// The colour of a panel.
#[derive(Debug, Copy, Clone, PartialEq, Eq, Structural)]
pub enum Color {
    Black,
    White,
}

/// The colour that a number stands for: 0 is black, 1 is white. Any
/// other number is handed back as the error.
pub open spec fn spec_color(value: isize) -> Result<Color, isize> {
    if value == 0 {
        Ok(Color::Black)
    } else if value == 1 {
        Ok(Color::White)
    } else {
        Err(value)
    }
}

impl Color {
    /// The colour that a number stands for.
    pub fn try_from(value: isize) -> (color: Result<Color, isize>)
        ensures
            color == spec_color(value),
    {
        if value == 0 {
            Ok(Color::Black)
        } else if value == 1 {
            Ok(Color::White)
        } else {
            Err(value)
        }
    }

    /// The number that stands for this colour.
    pub open spec fn spec_code(&self) -> isize {
        match self {
            Color::Black => 0,
            Color::White => 1,
        }
    }

    /// The number that stands for this colour.
    #[verifier::when_used_as_spec(spec_code)]
    pub fn code(&self) -> (code: isize)
        ensures
            code == self.spec_code(),
    {
        match self {
            Color::Black => 0,
            Color::White => 1,
        }
    }
}

impl Default for Color {
    /// The colour of a panel that has never been painted.
    fn default() -> (color: Self)
        ensures
            color == Color::Black,
    {
        Color::Black
    }
}

/// A position on the hull.
pub type Location = (isize, isize);

/// The hull, as the contracts speak of it.
pub struct HullState {
    /// The colour of every panel that has been painted.
    pub grid: Map<Location, Color>,
    /// Where the robot stands.
    pub current_location: Location,
}

impl HullState {
    /// The colour of a panel: black where it has never been painted.
    pub open spec fn color_at(self, location: Location) -> Color {
        if self.grid.contains_key(location) {
            self.grid[location]
        } else {
            Color::Black
        }
    }
}

/// The hull and the robot on it.
pub struct Hull {
    grid: PointMap<Color>,
    current_location: Location,
}

impl View for Hull {
    type V = HullState;

    closed spec fn view(&self) -> HullState {
        HullState { grid: self.grid@, current_location: self.current_location }
    }
}

/// Whether `bound` is the largest of the smallest machine word and the
/// coordinates of all painted panels; `horizontal` chooses the coordinate.
pub open spec fn is_largest(grid: Map<Location, Color>, bound: isize, horizontal: bool) -> bool {
    &&& forall|point: Location| #[trigger]
        grid.contains_key(point) ==> bound >= if horizontal {
            point.0
        } else {
            point.1
        }
    &&& (bound == isize::MIN || exists|point: Location| #[trigger]
        grid.contains_key(point) && bound == if horizontal {
            point.0
        } else {
            point.1
        })
}

/// Whether `bound` is the smallest of the largest machine word and the
/// coordinates of all painted panels.
pub open spec fn is_smallest(grid: Map<Location, Color>, bound: isize, horizontal: bool) -> bool {
    &&& forall|point: Location| #[trigger]
        grid.contains_key(point) ==> bound <= if horizontal {
            point.0
        } else {
            point.1
        }
    &&& (bound == isize::MAX || exists|point: Location| #[trigger]
        grid.contains_key(point) && bound == if horizontal {
            point.0
        } else {
            point.1
        })
}

/// The character that shows a panel: `#` for white, `.` for black.
pub open spec fn panel(hull: HullState, location: Location) -> char {
    if hull.color_at(location) == Color::White {
        '#'
    } else {
        '.'
    }
}

/// The first `count` characters of a row of the picture: the panels of
/// row `y` from column `right` leftwards.
pub open spec fn row_text(hull: HullState, y: int, right: int, count: int) -> Seq<char>
    decreases count,
{
    if count <= 0 {
        Seq::empty()
    } else {
        row_text(hull, y, right, count - 1).push(
            panel(hull, ((right - (count - 1)) as isize, y as isize)),
        )
    }
}

/// The first `count` rows of the picture, from row `top` downwards to
/// smaller numbers, with a line feed between two rows; each row runs from
/// column `right` leftwards to column `left`.
pub open spec fn picture(hull: HullState, top: int, left: int, right: int, count: int) -> Seq<
    char,
>
    decreases count,
{
    if count <= 0 {
        Seq::empty()
    } else if count == 1 {
        row_text(hull, top, right, right - left + 1)
    } else {
        picture(hull, top, left, right, count - 1) + seq!['\n'] + row_text(
            hull,
            top - (count - 1),
            right,
            right - left + 1,
        )
    }
}

impl Hull {
    /// Whether the map of painted panels is in order.
    pub closed spec fn wf(&self) -> bool {
        self.grid.wf()
    }

    /// The painted panels in the order in which they were first painted.
    pub closed spec fn painted_in_order(&self) -> Seq<Location> {
        self.grid.keys()
    }

    /// The list of painted panels holds each of them once, and no other.
    pub proof fn lemma_painted_in_order(&self)
        requires
            self.wf(),
        ensures
            self.painted_in_order().no_duplicates(),
            forall|point: Location| #[trigger]
                self.painted_in_order().contains(point) <==> self@.grid.contains_key(point),
    {
        self.grid.lemma_keys();
    }

    /// A hull without paint, with the robot at the origin.
    pub fn new() -> (hull: Self)
        ensures
            hull.wf(),
            hull@ == (HullState { grid: Map::empty(), current_location: (0, 0) }),
    {
        Hull { grid: PointMap::new(), current_location: (0, 0) }
    }

    /// Where the robot stands.
    pub fn current_location(&self) -> (location: Location)
        ensures
            location == self@.current_location,
    {
        self.current_location
    }

    /// What the robot's camera shows: the number of the colour of the
    /// panel on which the robot stands.
    pub fn camera(&self) -> (code: isize)
        ensures
            code == self@.color_at(self@.current_location).code(),
    {
        match self.grid.get(self.current_location) {
            Some(color) => color.code(),
            None => Color::default().code(),
        }
    }

    /// Paints the panel on which the robot stands.
    pub fn paint(&mut self, new_paint: Color)
        requires
            old(self).wf(),
        ensures
            final(self).wf(),
            final(self)@ == (HullState {
                grid: old(self)@.grid.insert(old(self)@.current_location, new_paint),
                ..old(self)@
            }),
    {
        self.grid.insert(self.current_location, new_paint);
    }

    /// Moves the robot by a step.
    pub fn advance(&mut self, dx: isize, dy: isize)
        requires
            old(self).wf(),
            isize::MIN <= old(self)@.current_location.0 + dx <= isize::MAX,
            isize::MIN <= old(self)@.current_location.1 + dy <= isize::MAX,
        ensures
            final(self).wf(),
            final(self)@ == (HullState {
                current_location: (
                    (old(self)@.current_location.0 + dx) as isize,
                    (old(self)@.current_location.1 + dy) as isize,
                ),
                ..old(self)@
            }),
    {
        self.current_location = (self.current_location.0 + dx, self.current_location.1 + dy);
    }

    /// The number of panels that have been painted at least once.
    pub fn painted_count(&self) -> (count: usize)
        requires
            self.wf(),
        ensures
            count == self.painted_in_order().len(),
            self@.grid.dom().finite(),
            count == self@.grid.dom().len(),
    {
        proof {
            self.grid.lemma_keys();
        }
        self.grid.len()
    }

    /// The corners of the painted part of the hull: first the largest
    /// column and row, then the smallest. Without paint the first is the
    /// smallest machine word twice and the second the largest.
    pub fn painted_bounds(&self) -> (bounds: (Location, Location))
        requires
            self.wf(),
        ensures
            is_largest(self@.grid, bounds.0.0, true),
            is_largest(self@.grid, bounds.0.1, false),
            is_smallest(self@.grid, bounds.1.0, true),
            is_smallest(self@.grid, bounds.1.1, false),
    {
        let mut max: Location = (isize::MIN, isize::MIN);
        let mut min: Location = (isize::MAX, isize::MAX);
        let total = self.grid.len();
        let mut position: usize = 0;
        proof {
            self.lemma_painted_in_order();
        }
        while position < total
            invariant
                position <= total == self.painted_in_order().len(),
                forall|point: Location| #[trigger]
                    self.painted_in_order().contains(point) <==> self@.grid.contains_key(point),
                forall|i: int|
                    0 <= i < position ==> {
                        let point = #[trigger] self.painted_in_order()[i];
                        min.0 <= point.0 <= max.0 && min.1 <= point.1 <= max.1
                    },
                max.0 == isize::MIN || exists|i: int|
                    0 <= i < position && (#[trigger] self.painted_in_order()[i]).0 == max.0,
                max.1 == isize::MIN || exists|i: int|
                    0 <= i < position && (#[trigger] self.painted_in_order()[i]).1 == max.1,
                min.0 == isize::MAX || exists|i: int|
                    0 <= i < position && (#[trigger] self.painted_in_order()[i]).0 == min.0,
                min.1 == isize::MAX || exists|i: int|
                    0 <= i < position && (#[trigger] self.painted_in_order()[i]).1 == min.1,
            decreases total - position,
        {
            let location = self.grid.key_at(position);
            if location.0 < min.0 {
                min.0 = location.0;
            }
            if location.1 < min.1 {
                min.1 = location.1;
            }
            if location.0 > max.0 {
                max.0 = location.0;
            }
            if location.1 > max.1 {
                max.1 = location.1;
            }
            position = position + 1;
        }
        proof {
            assert forall|point: Location| #[trigger] self@.grid.contains_key(point) implies min.0
                <= point.0 <= max.0 && min.1 <= point.1 <= max.1 by {
                assert(self.painted_in_order().contains(point));
                let i = choose|i: int|
                    0 <= i < self.painted_in_order().len() && self.painted_in_order()[i] == point;
            }
            if max.0 != isize::MIN {
                let i = choose|i: int|
                    0 <= i < position && (#[trigger] self.painted_in_order()[i]).0 == max.0;
                assert(self.painted_in_order().contains(self.painted_in_order()[i]));
            }
            if max.1 != isize::MIN {
                let i = choose|i: int|
                    0 <= i < position && (#[trigger] self.painted_in_order()[i]).1 == max.1;
                assert(self.painted_in_order().contains(self.painted_in_order()[i]));
            }
            if min.0 != isize::MAX {
                let i = choose|i: int|
                    0 <= i < position && (#[trigger] self.painted_in_order()[i]).0 == min.0;
                assert(self.painted_in_order().contains(self.painted_in_order()[i]));
            }
            if min.1 != isize::MAX {
                let i = choose|i: int|
                    0 <= i < position && (#[trigger] self.painted_in_order()[i]).1 == min.1;
                assert(self.painted_in_order().contains(self.painted_in_order()[i]));
            }
        }
        (max, min)
    }

    /// The picture of the hull between two corners, with a margin of one
    /// panel on every side: the rows from the top one down, each from the
    /// right to the left, `#` for a white panel and `.` for any other.
    /// There is none where the margin does not fit machine words.
    pub fn render(&self, max: Location, min: Location) -> (text: Option<String>)
        requires
            self.wf(),
        ensures
            match text {
                Some(drawn) => {
                    &&& min.0 > isize::MIN && min.1 > isize::MIN
                    &&& max.0 < isize::MAX && max.1 < isize::MAX
                    &&& drawn@ == picture(
                        self@,
                        max.1 + 1,
                        min.0 - 1,
                        max.0 + 1,
                        if max.1 + 1 >= min.1 - 1 && max.0 + 1 >= min.0 - 1 {
                            (max.1 + 1) - (min.1 - 1) + 1
                        } else {
                            0
                        },
                    )
                },
                None => min.0 == isize::MIN || min.1 == isize::MIN || max.0 == isize::MAX
                    || max.1 == isize::MAX,
            },
    {
        if min.0 == isize::MIN || min.1 == isize::MIN || max.0 == isize::MAX || max.1
            == isize::MAX {
            return None;
        }
        let top = max.1 + 1;
        let bottom = min.1 - 1;
        let right = max.0 + 1;
        let left = min.0 - 1;
        proof {
            reveal_strlit("");
            reveal_strlit("#");
            reveal_strlit(".");
            reveal_strlit("\n");
        }
        let mut result = String::from_str("");
        if top < bottom || right < left {
            return Some(result);
        }
        let mut y: isize = top;
        let ghost hull = self@;
        loop
            invariant_except_break
                result@ == picture(hull, top as int, left as int, right as int, top - y) + if y
                    < top {
                    seq!['\n']
                } else {
                    Seq::<char>::empty()
                },
            invariant
                bottom <= y <= top,
                left <= right,
                self.wf(),
                hull == self@,
                "#"@ == seq!['#'],
                "."@ == seq!['.'],
                "\n"@ == seq!['\n'],
            ensures
                result@ == picture(hull, top as int, left as int, right as int, top - bottom + 1),
            decreases y - bottom,
        {
            let ghost before = result@;
            let mut x: isize = right;
            loop
                invariant_except_break
                    result@ == before + row_text(hull, y as int, right as int, right - x),
                invariant
                    left <= x <= right,
                    self.wf(),
                    hull == self@,
                    "#"@ == seq!['#'],
                    "."@ == seq!['.'],
                ensures
                    result@ == before + row_text(hull, y as int, right as int, right - left + 1),
                decreases x - left,
            {
                let white = match self.grid.get((x, y)) {
                    Some(color) => match color {
                        Color::Black => false,
                        Color::White => true,
                    },
                    None => false,
                };
                if white {
                    result.append("#");
                } else {
                    result.append(".");
                }
                if x == left {
                    break ;
                }
                x = x - 1;
            }
            proof {
                let row = row_text(hull, y as int, right as int, right - left + 1);
                if y == top {
                    assert(before + row =~= picture(
                        hull,
                        top as int,
                        left as int,
                        right as int,
                        1,
                    ));
                } else {
                    assert(before + row =~= picture(
                        hull,
                        top as int,
                        left as int,
                        right as int,
                        top - y + 1,
                    ));
                }
            }
            if y == bottom {
                break ;
            }
            result.append("\n");
            y = y - 1;
        }
        Some(result)
    }
}

} // verus!
