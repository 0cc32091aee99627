//! The place of one process among the processes of a job.

use crate::text::letters;
#[allow(unused_imports)]
use crate::text::{all_digits, digits_value, is_digit};
use vstd::prelude::*;

verus! {

/// The rank of a process and the number of processes.
#[derive(Debug, Clone, Copy, PartialEq, Eq, Structural)]
pub struct JobAssignment {
    pub rank: usize,
    pub world_size: usize,
}

/// How tasks find their ranks: task `i` belongs to rank `i` modulo the number of ranks, or any
/// rank takes the next unfinished task.
#[derive(Debug, Clone, Copy, PartialEq, Eq, Structural)]
pub enum Scheduling {
    Static,
    Dynamic,
}

/// A rank that does not fit its number of processes.
#[derive(Debug, Clone, Copy, PartialEq, Eq, Structural)]
pub struct AssignmentError {
    pub rank: usize,
    pub world_size: usize,
}

impl AssignmentError {
    /// What is wrong with the assignment.
    pub fn message(&self) -> (text: String)
        ensures
            text@ == if self.world_size == 0 {
                "world_size must be positive"@
            } else {
                "rank must be smaller than world_size"@
            },
    {
        if self.world_size == 0 {
            "world_size must be positive".to_owned()
        } else {
            "rank must be smaller than world_size".to_owned()
        }
    }
}

impl JobAssignment {
    /// Whether the rank is one of the ranks of the world.
    pub open spec fn valid(self) -> bool {
        self.rank < self.world_size
    }

    /// Checks a rank against a world size.
    pub fn new(rank: usize, world_size: usize) -> (assignment: Result<Self, AssignmentError>)
        ensures
            assignment == if rank < world_size {
                Ok::<Self, AssignmentError>(JobAssignment { rank, world_size })
            } else {
                Err(AssignmentError { rank, world_size })
            },
    {
        if world_size == 0 || rank >= world_size {
            Err(AssignmentError { rank, world_size })
        } else {
            Ok(JobAssignment { rank, world_size })
        }
    }

    /// The assignment of a process that works alone.
    pub fn single() -> (assignment: Self)
        ensures
            assignment == (JobAssignment { rank: 0, world_size: 1 }),
            assignment.valid(),
    {
        JobAssignment { rank: 0, world_size: 1 }
    }

    /// The assignment that environment variables describe. `ranks` holds the values of the
    /// variables that [`rank_variables`] lists and `sizes` those of [`world_size_variables`],
    /// each `None` where the variable is not set. The first value that is a number counts.
    pub fn from_env(ranks: &Vec<Option<String>>, sizes: &Vec<Option<String>>) -> (assignment: Result<
        Self,
        AssignmentError,
    >)
        ensures
            ({
                let rank = match first_number(ranks@) {
                    Some(n) => n as usize,
                    None => 0,
                };
                let world_size = match first_number(sizes@) {
                    Some(n) => n as usize,
                    None => 1,
                };
                assignment == if rank < world_size {
                    Ok::<Self, AssignmentError>(JobAssignment { rank, world_size })
                } else {
                    Err(AssignmentError { rank, world_size })
                }
            }),
    {
        let rank: usize = match env_any(ranks) {
            Some(n) => n,
            None => 0,
        };
        let world_size: usize = match env_any(sizes) {
            Some(n) => n,
            None => 1,
        };
        Self::new(rank, world_size)
    }
}

/// The variables that may hold the rank, the most specific first.
pub fn rank_variables() -> (names: [&'static str; 6])
    ensures
        names@ == seq![
            "XY_RANK",
            "SLURM_PROCID",
            "OMPI_COMM_WORLD_RANK",
            "PMI_RANK",
            "PMIX_RANK",
            "MV2_COMM_WORLD_RANK",
        ],
{
    let names: [&'static str; 6] = [
        "XY_RANK",
        "SLURM_PROCID",
        "OMPI_COMM_WORLD_RANK",
        "PMI_RANK",
        "PMIX_RANK",
        "MV2_COMM_WORLD_RANK",
    ];
    assert(names@ =~= seq![
        "XY_RANK",
        "SLURM_PROCID",
        "OMPI_COMM_WORLD_RANK",
        "PMI_RANK",
        "PMIX_RANK",
        "MV2_COMM_WORLD_RANK",
    ]);
    names
}

/// The variables that may hold the number of processes, the most specific first.
pub fn world_size_variables() -> (names: [&'static str; 6])
    ensures
        names@ == seq![
            "XY_WORLD_SIZE",
            "SLURM_NTASKS",
            "OMPI_COMM_WORLD_SIZE",
            "PMI_SIZE",
            "PMIX_SIZE",
            "MV2_COMM_WORLD_SIZE",
        ],
{
    let names: [&'static str; 6] = [
        "XY_WORLD_SIZE",
        "SLURM_NTASKS",
        "OMPI_COMM_WORLD_SIZE",
        "PMI_SIZE",
        "PMIX_SIZE",
        "MV2_COMM_WORLD_SIZE",
    ];
    assert(names@ =~= seq![
        "XY_WORLD_SIZE",
        "SLURM_NTASKS",
        "OMPI_COMM_WORLD_SIZE",
        "PMI_SIZE",
        "PMIX_SIZE",
        "MV2_COMM_WORLD_SIZE",
    ]);
    names
}

/// The digits of a number that may carry a plus sign.
pub open spec fn unsigned_digits(text: Seq<char>) -> Seq<char> {
    if text.len() > 0 && text[0] == '+' {
        text.drop_first()
    } else {
        text
    }
}

/// The number that a text holds: digits behind an optional plus sign, not too large.
pub open spec fn number_in(text: Seq<char>) -> Option<nat> {
    let digits = unsigned_digits(text);
    if digits.len() > 0 && all_digits(digits) && digits_value(digits) <= usize::MAX {
        Some(digits_value(digits))
    } else {
        None
    }
}

/// The first value that is set and holds a number.
pub open spec fn first_number(values: Seq<Option<String>>) -> Option<nat>
    decreases values.len(),
{
    if values.len() == 0 {
        None
    } else {
        match values[0] {
            Some(text) => match number_in(text@) {
                Some(n) => Some(n),
                None => first_number(values.drop_first()),
            },
            None => first_number(values.drop_first()),
        }
    }
}

proof fn lemma_prefix_value(digits: Seq<char>, split: int)
    requires
        all_digits(digits),
        0 <= split <= digits.len(),
    ensures
        digits_value(digits.take(split)) <= digits_value(digits),
    decreases digits.len(),
{
    if split < digits.len() {
        assert(digits.drop_last().take(split) =~= digits.take(split));
        lemma_prefix_value(digits.drop_last(), split);
    } else {
        assert(digits.take(split) =~= digits);
    }
}

/// Reads a number: digits behind an optional plus sign, not too large.
pub fn parse_usize(text: &str) -> (number: Option<usize>)
    ensures
        match number {
            Some(n) => number_in(text@) == Some(n as nat),
            None => number_in(text@) is None,
        },
{
    let chars = letters(text);
    let start: usize = if chars.len() > 0 && chars[0] == '+' {
        1
    } else {
        0
    };
    let ghost digits = unsigned_digits(text@);
    assert(digits =~= chars@.skip(start as int));
    if start == chars.len() {
        return None;
    }
    let mut value: usize = 0;
    let mut index: usize = start;
    while index < chars.len()
        invariant
            start <= index <= chars.len(),
            digits == unsigned_digits(text@),
            digits == chars@.skip(start as int),
            digits.len() > 0,
            all_digits(digits.take(index - start)),
            value == digits_value(digits.take(index - start)),
        decreases chars.len() - index,
    {
        let c: char = chars[index];
        let ghost taken = digits.take(index - start + 1);
        assert(digits[index - start] == c);
        if c < '0' || c > '9' {
            assert(!is_digit(digits[index - start]));
            return None;
        }
        let digit: usize = (c as u32 - 48) as usize;
        proof {
            assert(taken.drop_last() =~= digits.take(index - start));
            assert forall|i: int| 0 <= i < taken.len() implies is_digit(#[trigger] taken[i]) by {
                if i < index - start {
                    assert(is_digit(digits.take(index - start)[i]));
                }
            }
            if all_digits(digits) {
                lemma_prefix_value(digits, index - start + 1);
            }
        }
        let scaled: usize = match value.checked_mul(10) {
            Some(scaled) => scaled,
            None => {
                return None;
            },
        };
        value = match scaled.checked_add(digit) {
            Some(sum) => sum,
            None => {
                return None;
            },
        };
        index = index + 1;
    }
    assert(digits.take(index - start) =~= digits);
    Some(value)
}

/// The first of the values that is set and holds a number.
pub fn env_any(values: &Vec<Option<String>>) -> (number: Option<usize>)
    ensures
        match number {
            Some(n) => first_number(values@) == Some(n as nat),
            None => first_number(values@) is None,
        },
{
    let mut index: usize = 0;
    assert(values@.skip(0) =~= values@);
    while index < values.len()
        invariant
            index <= values.len(),
            first_number(values@) == first_number(values@.skip(index as int)),
        decreases values.len() - index,
    {
        let ghost rest = values@.skip(index as int);
        assert(rest.drop_first() =~= values@.skip(index + 1));
        if let Some(text) = &values[index] {
            if let Some(n) = parse_usize(text.as_str()) {
                return Some(n);
            }
        }
        index = index + 1;
    }
    None
}

/// An assignment is made exactly of a rank below the number of processes, and is then of the two
/// numbers. What refuses one tells the two numbers as well.
pub proof fn law_assignments(
    rank: usize,
    world_size: usize,
    made: Result<JobAssignment, AssignmentError>,
    single: JobAssignment,
)
    requires
        call_ensures(JobAssignment::new, (rank, world_size), made),
        call_ensures(JobAssignment::single, (), single),
    ensures
        made is Ok <==> rank < world_size,
        made matches Ok(a) ==> a.rank == rank && a.world_size == world_size,
        made matches Err(e) ==> e.rank == rank && e.world_size == world_size,
        single.rank == 0 && single.world_size == 1,
{
}

/// A refused assignment says what is wrong: that there are no processes, or that the rank is too
/// large.
pub proof fn law_assignment_messages(e: AssignmentError, text: String)
    requires
        call_ensures(AssignmentError::message, (&e,), text),
    ensures
        e.world_size == 0 ==> text@ == "world_size must be positive"@,
        e.world_size > 0 ==> text@ == "rank must be smaller than world_size"@,
{
}

/// A text is read as a number exactly if it holds digits and nothing else, at least one of them,
/// behind at most one plus sign, and the number fits.
pub proof fn law_read_numbers(text: &str, number: Option<usize>)
    requires
        call_ensures(parse_usize, (text,), number),
    ensures
        number is Some ==> ({
            let start: int = if text@[0] == '+' {
                1
            } else {
                0
            };
            &&& text@.len() > start
            &&& forall|i: int| start <= i < text@.len() ==> '0' <= #[trigger] text@[i] <= '9'
            &&& number->0 == digits_value(text@.skip(start))
        }),
        text@.len() == 0 ==> number is None,
        (exists|i: int|
            1 <= i < text@.len() && !('0' <= #[trigger] text@[i] <= '9')) ==> number is None,
        text@.len() > 0 && (forall|i: int|
            0 <= i < text@.len() ==> '0' <= #[trigger] text@[i] <= '9') && digits_value(text@)
            <= usize::MAX ==> number == Some(digits_value(text@) as usize),
        text@.len() > 1 && text@[0] == '+' && (forall|i: int|
            1 <= i < text@.len() ==> '0' <= #[trigger] text@[i] <= '9') && digits_value(
            text@.drop_first(),
        ) <= usize::MAX ==> number == Some(digits_value(text@.drop_first()) as usize),
{
    let digits = unsigned_digits(text@);
    let start: int = if text@.len() > 0 && text@[0] == '+' {
        1
    } else {
        0
    };
    assert(digits =~= text@.skip(start));
    assert(text@.skip(0) =~= text@);
    if number is Some {
        assert forall|i: int| start <= i < text@.len() implies '0' <= #[trigger] text@[i] <= '9' by {
            assert(is_digit(digits[i - start]));
        }
    }
    if exists|i: int| 1 <= i < text@.len() && !('0' <= #[trigger] text@[i] <= '9') {
        let i = choose|i: int| 1 <= i < text@.len() && !('0' <= #[trigger] text@[i] <= '9');
        assert(!is_digit(digits[i - start]));
    }
    if forall|i: int| start <= i < text@.len() ==> '0' <= #[trigger] text@[i] <= '9' {
        assert forall|i: int| 0 <= i < digits.len() implies is_digit(#[trigger] digits[i]) by {
            assert('0' <= text@[i + start] <= '9');
        }
    }
    if text@.len() > 0 && text@[0] == '+' {
        assert(!is_digit(text@[0]));
    }
}

/// A value that is not set or holds no number is passed over, and the first other one counts.
pub proof fn law_first_value_counts(
    values: Vec<Option<String>>,
    found: Option<usize>,
    place: int,
    text: &str,
    number: Option<usize>,
)
    requires
        call_ensures(env_any, (&values,), found),
        0 <= place < values@.len(),
        values@[place] is Some ==> text@ == values@[place]->0@ && call_ensures(
            parse_usize,
            (text,),
            number,
        ),
        values@[place] is None ==> number is None,
        forall|i: int|
            0 <= i < place ==> (#[trigger] values@[i] is None || number_in(values@[i]->0@) is None),
    ensures
        number is Some ==> found == number,
        number is None && place + 1 == values@.len() ==> found is None,
{
    reveal_with_fuel(first_number, 2);
    lemma_first_number_skips(values@, place);
    let rest = values@.skip(place);
    assert(rest[0] == values@[place]);
    assert(place + 1 == values@.len() ==> rest.drop_first().len() == 0);
}

proof fn lemma_first_number_skips(values: Seq<Option<String>>, place: int)
    requires
        0 <= place <= values.len(),
        forall|i: int|
            0 <= i < place ==> (#[trigger] values[i] is None || number_in(values[i]->0@) is None),
    ensures
        first_number(values) == first_number(values.skip(place)),
    decreases place,
{
    if place > 0 {
        let rest = values.drop_first();
        assert(values[0] is None || number_in(values[0]->0@) is None);
        assert forall|i: int| 0 <= i < place - 1 implies (#[trigger] rest[i] is None || number_in(
            rest[i]->0@,
        ) is None) by {
            assert(values[i + 1] is None || number_in(values[i + 1]->0@) is None);
        }
        lemma_first_number_skips(rest, place - 1);
        assert(rest.skip(place - 1) =~= values.skip(place));
    } else {
        assert(values.skip(0) =~= values);
    }
}

/// What the environment says is what the two lists say: a rank of zero and one process where they
/// hold no number.
pub proof fn law_assignments_of_the_environment(
    ranks: Vec<Option<String>>,
    sizes: Vec<Option<String>>,
    rank: Option<usize>,
    size: Option<usize>,
    made: Result<JobAssignment, AssignmentError>,
    expected: Result<JobAssignment, AssignmentError>,
)
    requires
        call_ensures(env_any, (&ranks,), rank),
        call_ensures(env_any, (&sizes,), size),
        call_ensures(JobAssignment::from_env, (&ranks, &sizes), made),
        call_ensures(
            JobAssignment::new,
            (
                if rank is Some {
                    rank->0
                } else {
                    0
                },
                if size is Some {
                    size->0
                } else {
                    1
                },
            ),
            expected,
        ),
    ensures
        made == expected,
{
}

/// The variables of the environment in the order in which they count: those of the library first,
/// then those of the launchers.
pub proof fn law_variables(ranks: [&'static str; 6], sizes: [&'static str; 6])
    requires
        call_ensures(rank_variables, (), ranks),
        call_ensures(world_size_variables, (), sizes),
    ensures
        ranks@[0]@ == "XY_RANK"@ && sizes@[0]@ == "XY_WORLD_SIZE"@,
        ranks@[1]@ == "SLURM_PROCID"@ && sizes@[1]@ == "SLURM_NTASKS"@,
        ranks@[2]@ == "OMPI_COMM_WORLD_RANK"@ && sizes@[2]@ == "OMPI_COMM_WORLD_SIZE"@,
        ranks@[3]@ == "PMI_RANK"@ && sizes@[3]@ == "PMI_SIZE"@,
        ranks@[4]@ == "PMIX_RANK"@ && sizes@[4]@ == "PMIX_SIZE"@,
        ranks@[5]@ == "MV2_COMM_WORLD_RANK"@ && sizes@[5]@ == "MV2_COMM_WORLD_SIZE"@,
{
}

} // verus!
