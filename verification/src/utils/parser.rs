//! Field extraction from `/proc/cpuinfo` and `/proc/meminfo`.
use vstd::prelude::*;
use crate::utils::text::{
    chars_of, string_of, split_lines, lines_of, split_whitespace, words_of, has_prefix,
    starts_with, trim, trim_of, nth1_field, second_field, parse_u64, parse_uint_of, char_views,
};

verus! {

/// The index of the first line at or after `k` that starts with `p`, or -1.
pub open spec fn first_line_with_prefix(ls: Seq<Seq<char>>, p: Seq<char>, k: int) -> int
    decreases ls.len() - k,
{
    if k < 0 || k >= ls.len() {
        -1
    } else if starts_with(ls[k], p) {
        k
    } else {
        first_line_with_prefix(ls, p, k + 1)
    }
}

/// The processor model that the text of `/proc/cpuinfo` names: on the first
/// line that starts with `model name`, the trimmed text after the first
/// `": "` (up to a second one); empty when there is no such line or text.
pub open spec fn cpu_model_of(buffer: Seq<char>) -> Seq<char> {
    let ls = lines_of(buffer);
    let k = first_line_with_prefix(ls, "model name"@, 0);
    if k < 0 {
        seq![]
    } else {
        match second_field(ls[k], ": "@) {
            Some(f) => trim_of(f),
            None => trim_of(seq![]),
        }
    }
}

/// The processor model named in the text of `/proc/cpuinfo`.
pub fn parse_cpu_model(buffer: &str) -> (r: String)
    ensures
        r@ == cpu_model_of(buffer@),
{
    let cs = chars_of(buffer);
    let lines = split_lines(&cs);
    let ghost ls = char_views(lines@);
    let prefix = chars_of("model name");
    let sep = chars_of(": ");
    proof {
        reveal_strlit(": ");
    }
    let mut i: usize = 0;
    while i < lines.len()
        invariant
            i <= lines.len(),
            ls == char_views(lines@),
            ls == lines_of(buffer@),
            prefix@ == "model name"@,
            sep@ == ": "@,
            sep@.len() == 2,
            first_line_with_prefix(ls, prefix@, 0) == first_line_with_prefix(ls, prefix@, i as int),
        decreases lines.len() - i,
    {
        assert(ls[i as int] == lines@[i as int]@);
        if has_prefix(&lines[i], &prefix) {
            assert(first_line_with_prefix(ls, prefix@, i as int) == i);
            let field: Vec<char> = match nth1_field(&lines[i], &sep) {
                Some(f) => f,
                None => Vec::new(),
            };
            assert(cpu_model_of(buffer@) == trim_of(field@));
            let t = trim(&field);
            return string_of(&t);
        }
        i += 1;
    }
    String::new()
}

/// The number in the second word of a line, as `str::parse::<u64>` reads
/// it, or 0.
pub open spec fn memory_value_of(line: Seq<char>) -> u64 {
    let w = words_of(line);
    if w.len() < 2 {
        0
    } else {
        match parse_uint_of(w[1], u64::MAX as nat) {
            Ok(v) => v as u64,
            Err(_) => 0,
        }
    }
}

/// The amount on a line of `/proc/meminfo` (the second word, in whole kB,
/// read as `str::parse::<u64>` reads it), or 0 when there is none.
pub fn parse_memory_line(line: &str) -> (r: u64)
    ensures
        r == memory_value_of(line@),
{
    let cs = chars_of(line);
    memory_value(&cs)
}

/// The amount on a line of `/proc/meminfo`, or 0.
pub fn memory_value(line: &Vec<char>) -> (r: u64)
    ensures
        r == memory_value_of(line@),
{
    let words = split_whitespace(line);
    if words.len() < 2 {
        return 0;
    }
    match parse_u64(&words[1]) {
        Ok(v) => v,
        Err(_) => 0,
    }
}

} // verus!
