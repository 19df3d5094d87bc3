//! The arguments of a run: where the input is, how many threads to use, where the output goes.

use vstd::prelude::*;
use vstd::utf8::encode_utf8;

verus! {

/// The position of the input path among the arguments.
pub const INPUT_PATH_CONSOLE_ARGUMENT: usize = 1;

/// The position of the number of threads among the arguments.
pub const NUMBER_OF_THREADS_CONSOLE_ARGUMENT: usize = 2;

/// The position of the output file's name among the arguments.
pub const OUTPUT_FILE_CONSOLE_ARGUMENT: usize = 3;

/// The number of arguments, the program's own name included.
pub const EXPECTED_ARGS: usize = 4;

/// The byte `+`.
pub const PLUS: u8 = 43;

/// The byte `0`.
pub const ZERO: u8 = 48;

/// The byte `9`.
pub const NINE: u8 = 57;

/// Why the arguments were not accepted.
#[derive(Clone, Copy, Debug, PartialEq, Eq)]
pub enum ArgumentError {
    /// There are not exactly four arguments.
    WrongCount,
    /// The number of threads is not a whole number that fits a `usize`.
    NumThreads,
}

/// The value of a string of decimal digits, the first digit counting most.
pub open spec fn digits_value(digits: Seq<u8>) -> nat
    decreases digits.len(),
{
    if digits.len() == 0 {
        0
    } else {
        digits_value(digits.drop_last()) * 10 + (digits.last() - ZERO) as nat
    }
}

/// All bytes are decimal digits.
pub open spec fn all_digits(digits: Seq<u8>) -> bool {
    forall|i: int| 0 <= i < digits.len() ==> ZERO <= #[trigger] digits[i] <= NINE
}

/// The text without a `+` at its start.
pub open spec fn unsigned(text: Seq<u8>) -> Seq<u8> {
    if text.len() > 0 && text[0] == PLUS {
        text.drop_first()
    } else {
        text
    }
}

/// The number that a text stands for: decimal digits, at least one, with or without a `+`
/// before them, whose value fits a `usize`. Any other text stands for no number.
pub open spec fn number(text: Seq<u8>) -> Option<usize> {
    let digits = unsigned(text);
    if digits.len() > 0 && all_digits(digits) && digits_value(digits) <= usize::MAX {
        Some(digits_value(digits) as usize)
    } else {
        None
    }
}

proof fn lemma_digits_grow(digits: Seq<u8>, n: int)
    requires
        0 <= n <= digits.len(),
        all_digits(digits),
    ensures
        digits_value(digits.take(n)) <= digits_value(digits),
    decreases digits.len() - n,
{
    if n < digits.len() {
        assert(digits.take(n + 1).drop_last() =~= digits.take(n));
        lemma_digits_grow(digits, n + 1);
    } else {
        assert(digits.take(n) =~= digits);
    }
}

/// Reads a whole number from a text.
pub fn parse_number(text: &[u8]) -> (value: Option<usize>)
    ensures
        value == number(text@),
{
    let start: usize = if text.len() > 0 && text[0] == PLUS {
        1
    } else {
        0
    };
    let ghost digits = unsigned(text@);
    assert(digits =~= text@.skip(start as int));
    if start == text.len() {
        return None;
    }
    let mut value: usize = 0;
    let mut i: usize = start;
    assert(digits.take(0) =~= Seq::<u8>::empty());
    while i < text.len()
        invariant
            start <= i <= text.len(),
            digits == text@.skip(start as int),
            digits == unsigned(text@),
            digits.len() > 0,
            all_digits(digits.take(i - start)),
            value == digits_value(digits.take(i - start)),
        decreases text.len() - i,
    {
        let byte = text[i];
        let ghost at = i - start;
        proof {
            assert(digits[at] == byte);
            assert(digits.take(at + 1).drop_last() =~= digits.take(at));
        }
        if byte < ZERO || byte > NINE {
            assert(!all_digits(digits)) by {
                assert(!(ZERO <= digits[at] <= NINE));
            }
            return None;
        }
        let digit: usize = (byte - ZERO) as usize;
        assert(digits_value(digits.take(at + 1)) == value * 10 + digit) by {
            assert(digits.take(at + 1).last() == byte);
        }
        if value > (usize::MAX - digit) / 10 {
            proof {
                assert(value * 10 + digit > usize::MAX);
                if all_digits(digits) {
                    lemma_digits_grow(digits, at + 1);
                }
            }
            return None;
        }
        value = value * 10 + digit;
        proof {
            assert forall|j: int| 0 <= j < at + 1 implies ZERO <= #[trigger] digits.take(at + 1)[j]
                <= NINE by {
                if j < at {
                    assert(digits.take(at)[j] == digits[j]);
                }
            }
        }
        i += 1;
    }
    assert(digits.take(i - start) =~= digits);
    Some(value)
}

/// The arguments of a run.
pub struct ArgumentParser {
    input_path: String,
    num_threads: usize,
    output_file_name: String,
}

impl ArgumentParser {
    /// The directory that holds the input files.
    pub closed spec fn input_path(&self) -> Seq<char> {
        self.input_path@
    }

    /// The number of threads to use.
    pub closed spec fn num_threads(&self) -> usize {
        self.num_threads
    }

    /// The name of the file to write.
    pub closed spec fn output_file_name(&self) -> Seq<char> {
        self.output_file_name@
    }

    /// Reads the arguments as the program got them, its own name first: the input path, the
    /// number of threads and the name of the output file.
    pub fn new(args: &Vec<String>) -> (parsed: Result<Self, ArgumentError>)
        ensures
            parsed == Err::<Self, ArgumentError>(ArgumentError::WrongCount) <==> args.len()
                != EXPECTED_ARGS,
            parsed == Err::<Self, ArgumentError>(ArgumentError::NumThreads) <==> args.len()
                == EXPECTED_ARGS && number(
                encode_utf8(args[NUMBER_OF_THREADS_CONSOLE_ARGUMENT as int]@),
            ).is_none(),
            parsed matches Ok(parser) ==> {
                &&& parser.input_path() == args[INPUT_PATH_CONSOLE_ARGUMENT as int]@
                &&& Some(parser.num_threads()) == number(
                    encode_utf8(args[NUMBER_OF_THREADS_CONSOLE_ARGUMENT as int]@),
                )
                &&& parser.output_file_name() == args[OUTPUT_FILE_CONSOLE_ARGUMENT as int]@
            },
    {
        if args.len() != EXPECTED_ARGS {
            return Err(ArgumentError::WrongCount);
        }
        let threads = args[NUMBER_OF_THREADS_CONSOLE_ARGUMENT].as_str();
        match parse_number(threads.as_bytes()) {
            None => Err(ArgumentError::NumThreads),
            Some(num_threads) => Ok(
                ArgumentParser {
                    input_path: args[INPUT_PATH_CONSOLE_ARGUMENT].clone(),
                    num_threads,
                    output_file_name: args[OUTPUT_FILE_CONSOLE_ARGUMENT].clone(),
                },
            ),
        }
    }

    /// The directory that holds the input files.
    pub fn get_input_path(&self) -> (path: &str)
        ensures
            path@ == self.input_path(),
    {
        self.input_path.as_str()
    }

    /// The number of threads to use.
    pub fn get_num_threads(&self) -> (threads: usize)
        ensures
            threads == self.num_threads(),
    {
        self.num_threads
    }

    /// The name of the file to write.
    pub fn get_output_file_name(&self) -> (name: &str)
        ensures
            name@ == self.output_file_name(),
    {
        self.output_file_name.as_str()
    }
}

} // verus!
