//! Looking up options in a command line.
//!
//! A command line is the list of words the program was started with. The
//! value of an option `--key` is the word that follows the first occurrence
//! of `--key` that has a word after it.

use vstd::prelude::*;
use crate::decimal::{parse_unsigned, parse_unsigned_str};
use vstd::utf8::encode_utf8;

verus! {

/// The texts of the words of a command line.
pub open spec fn arg_views(args: Seq<String>) -> Seq<Seq<char>> {
    args.map_values(|a: String| a@)
}

/// The word that follows the first occurrence of `key` that has a word
/// after it; `None` when there is no such occurrence.
pub open spec fn arg_value(args: Seq<Seq<char>>, key: Seq<char>) -> Option<Seq<char>>
    decreases args.len(),
{
    if args.len() < 2 {
        None
    } else if args[0] == key {
        Some(args[1])
    } else {
        arg_value(args.drop_first(), key)
    }
}

/// The text of an optional string.
pub open spec fn text_of(o: Option<String>) -> Option<Seq<char>> {
    match o {
        Some(s) => Some(s@),
        None => None,
    }
}

/// Whether the two strings hold the same characters.
pub fn str_equal(a: &str, b: &str) -> (r: bool)
    ensures
        r == (a@ == b@),
{
    let x = a.as_bytes();
    let y = b.as_bytes();
    if x.len() != y.len() {
        return false;
    }
    let mut i: usize = 0;
    while i < x.len()
        invariant
            x@.len() == y@.len(),
            x@ == encode_utf8(a@),
            y@ == encode_utf8(b@),
            i <= x@.len(),
            forall|k: int| 0 <= k < i ==> x@[k] == y@[k],
        decreases x@.len() - i,
    {
        if x[i] != y[i] {
            return false;
        }
        i = i + 1;
    }
    assert(x@ =~= y@);
    proof {
        vstd::utf8::encode_utf8_decode_utf8(a@);
        vstd::utf8::encode_utf8_decode_utf8(b@);
    }
    true
}

/// Whether the word `word` occurs anywhere in the command line.
pub fn has_arg(args: &[String], word: &str) -> (r: bool)
    ensures
        r == arg_views(args@).contains(word@),
{
    let mut i: usize = 0;
    while i < args.len()
        invariant
            i <= args@.len(),
            forall|k: int| 0 <= k < i ==> args@[k]@ != word@,
        decreases args@.len() - i,
    {
        if str_equal(args[i].as_str(), word) {
            assert(arg_views(args@)[i as int] == word@);
            return true;
        }
        i = i + 1;
    }
    proof {
        if arg_views(args@).contains(word@) {
            let k = choose|k: int| 0 <= k < arg_views(args@).len() && arg_views(args@)[k] == word@;
            assert(args@[k]@ == word@);
        }
    }
    false
}

/// The value of the option `key`: the word after the first occurrence of
/// `key` that has a word after it.
pub fn parse_string_arg(args: &[String], key: &str) -> (r: Option<String>)
    ensures
        text_of(r) == arg_value(arg_views(args@), key@),
{
    let ghost all = arg_views(args@);
    let mut i: usize = 0;
    assert(all.skip(0) =~= all);
    while args.len() - i >= 2
        invariant
            all == arg_views(args@),
            i <= args@.len(),
            arg_value(all, key@) == arg_value(all.skip(i as int), key@),
        decreases args@.len() - i,
    {
        assert(all.skip(i as int)[0] == args@[i as int]@);
        assert(all.skip(i as int)[1] == args@[i + 1]@);
        if str_equal(args[i].as_str(), key) {
            return Some(args[i + 1].clone());
        }
        assert(all.skip(i as int).drop_first() =~= all.skip(i + 1));
        i = i + 1;
    }
    None
}

/// Values that an option can be read as.
pub trait FromArg: Sized {
    /// The value that the text `text` reads as, if any.
    spec fn spec_from_arg(text: Seq<char>) -> Option<Self>;

    /// Reads `text` as a value.
    fn from_arg(text: &str) -> (r: Option<Self>)
        ensures
            r == Self::spec_from_arg(text@),
    ;
}

impl FromArg for usize {
    /// An optional `+` and decimal digits whose value fits in `usize`.
    open spec fn spec_from_arg(text: Seq<char>) -> Option<usize> {
        match parse_unsigned(text, usize::MAX as nat) {
            Some(n) => Some(n as usize),
            None => None,
        }
    }

    fn from_arg(text: &str) -> (r: Option<usize>) {
        match parse_unsigned_str(text, usize::MAX as u64) {
            Some(v) => Some(v as usize),
            None => None,
        }
    }
}

impl FromArg for u32 {
    /// An optional `+` and decimal digits whose value fits in `u32`.
    open spec fn spec_from_arg(text: Seq<char>) -> Option<u32> {
        match parse_unsigned(text, u32::MAX as nat) {
            Some(n) => Some(n as u32),
            None => None,
        }
    }

    fn from_arg(text: &str) -> (r: Option<u32>) {
        match parse_unsigned_str(text, u32::MAX as u64) {
            Some(v) => Some(v as u32),
            None => None,
        }
    }
}

/// The value of the option `key` read as a `T`: `None` when the option is
/// absent or its value does not read as a `T`.
pub open spec fn spec_parse_arg<T: FromArg>(args: Seq<Seq<char>>, key: Seq<char>) -> Option<T> {
    match arg_value(args, key) {
        Some(v) => T::spec_from_arg(v),
        None => None,
    }
}

/// The value of the option `key` read as a `T`.
pub fn parse_arg<T: FromArg>(args: &[String], key: &str) -> (r: Option<T>)
    ensures
        r == spec_parse_arg::<T>(arg_views(args@), key@),
{
    match parse_string_arg(args, key) {
        Some(v) => T::from_arg(v.as_str()),
        None => None,
    }
}

/// The value of an option is the word right after the first occurrence of
/// the option's name that has a word after it.
pub proof fn lemma_arg_value_first_occurrence(args: Seq<Seq<char>>, key: Seq<char>)
    ensures
        match arg_value(args, key) {
            Some(v) => exists|i: int|
                #![trigger args[i]]
                0 <= i < args.len() - 1 && args[i] == key && v == args[i + 1] && forall|j: int|
                    0 <= j < i ==> args[j] != key,
            None => forall|i: int| 0 <= i < args.len() - 1 ==> args[i] != key,
        },
    decreases args.len(),
{
    if args.len() >= 2 && args[0] != key {
        let rest = args.drop_first();
        lemma_arg_value_first_occurrence(rest, key);
        match arg_value(rest, key) {
            Some(v) => {
                let i = choose|i: int|
                    #![trigger rest[i]]
                    0 <= i < rest.len() - 1 && rest[i] == key && v == rest[i + 1] && forall|j: int|
                        0 <= j < i ==> rest[j] != key;
                assert(args[i + 1] == key);
                assert forall|j: int| 0 <= j < i + 1 implies args[j] != key by {
                    if j > 0 {
                        assert(args[j] == rest[j - 1]);
                    }
                }
            },
            None => {
                assert forall|i: int| 0 <= i < args.len() - 1 implies args[i] != key by {
                    if i > 0 {
                        assert(args[i] == rest[i - 1]);
                    }
                }
            },
        }
    }
}

} // verus!
