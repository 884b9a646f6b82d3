//! A process, as a directory entry of `/proc` names it.

use crate::text::{all_digits, chars_of, decimal_value, digit_of, lemma_decimal_value_prefix};
use vstd::prelude::*;

verus! {

/// One process of the host.
#[derive(Clone, Copy, Debug, PartialEq, Eq, Structural)]
pub struct Process {
    pub pid: u32,
}

/// The process id that an entry name denotes: a positive number written in
/// decimal digits and nothing else, small enough for a `u32`.
pub open spec fn pid_of(name: Seq<char>) -> Option<u32> {
    if name.len() > 0 && all_digits(name) && 0 < decimal_value(name) <= u32::MAX {
        Some(decimal_value(name) as u32)
    } else {
        None
    }
}

/// The process that the entry name `pid` denotes, if it denotes one. Entries
/// of `/proc` that are no processes, such as `cpuinfo`, give `None`.
pub fn parse(pid: &str) -> (process: Option<Process>)
    ensures
        process == match pid_of(pid@) {
            Some(id) => Some(Process { pid: id }),
            None => None::<Process>,
        },
{
    let chars = chars_of(pid);
    if chars.len() == 0 {
        return None;
    }
    let mut value: u64 = 0;
    let mut i: usize = 0;
    while i < chars.len()
        invariant
            0 <= i <= chars.len(),
            chars@ == pid@,
            all_digits(chars@.take(i as int)),
            value == decimal_value(chars@.take(i as int)),
            value <= u32::MAX,
        decreases chars.len() - i,
    {
        let ghost longer = chars@.take(i + 1);
        assert(longer.drop_last() == chars@.take(i as int));
        match digit_of(chars[i]) {
            None => {
                return None;
            },
            Some(d) => {
                value = value * 10 + d as u64;
                assert(value == decimal_value(longer));
                assert(all_digits(longer)) by {
                    assert forall|j: int| 0 <= j < longer.len() implies crate::text::is_digit(
                        #[trigger] longer[j],
                    ) by {
                        if j < i {
                            assert(longer[j] == chars@.take(i as int)[j]);
                        }
                    }
                }
                if value > u32::MAX as u64 {
                    proof {
                        if all_digits(chars@) {
                            lemma_decimal_value_prefix(chars@, i + 1);
                        }
                    }
                    return None;
                }
            },
        }
        i += 1;
    }
    assert(chars@.take(i as int) == chars@);
    if value == 0 {
        None
    } else {
        Some(Process { pid: value as u32 })
    }
}

/// The process that the entry name `pid` denotes.
pub fn new(pid: String) -> (process: Process)
    requires
        pid_of(pid@) is Some,
    ensures
        Some(process.pid) == pid_of(pid@),
{
    parse(pid.as_str()).unwrap()
}

} // verus!
