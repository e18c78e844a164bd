//! Interpretation of one line typed on the server console.  The console
//! loop itself reads and prints outside this crate; it hands each raw line
//! in here and acts on the command that comes back.

use vstd::prelude::*;

use crate::text::{
    lower_byte, spec_lower, spec_token_run, spec_trim, spec_ws_run, token_run_end, trim_slice,
    ws_run_end,
};

verus! {

/// What a console line asks for.
#[derive(Debug, PartialEq, Eq)]
pub enum Command {
    /// Shut the server down.
    Stop,
    /// Make the named player a server operator; carries the name's bytes.
    MakeOperator(Vec<u8>),
    /// An operator command without a name to operate on.
    MissingOperatorName,
    /// Anything else: the line asks for nothing.
    Ignored,
}

/// The ASCII codes of `stop`.
pub open spec fn spec_stop_word() -> Seq<u8> {
    seq![115u8, 116u8, 111u8, 112u8]
}

/// The ASCII codes of `op`.
pub open spec fn spec_op_word() -> Seq<u8> {
    seq![111u8, 112u8]
}

/// Whether the line, trimmed and case-folded, is exactly `stop`.
pub open spec fn spec_is_stop(line: Seq<u8>) -> bool {
    spec_lower(spec_trim(line)) == spec_stop_word()
}

/// Whether the line, trimmed and case-folded, starts with `op`.
pub open spec fn spec_is_op(line: Seq<u8>) -> bool {
    let t = spec_lower(spec_trim(line));
    t.len() >= 2 && t.take(2) == spec_op_word()
}

/// The second whitespace-separated token of `line`, in its original
/// spelling, or `None` when the line has fewer than two tokens.
pub open spec fn spec_second_token(line: Seq<u8>) -> Option<Seq<u8>> {
    let s1 = line.skip(spec_ws_run(line));
    let s2 = s1.skip(spec_token_run(s1));
    let s3 = s2.skip(spec_ws_run(s2));
    if s3.len() == 0 {
        None
    } else {
        Some(s3.take(spec_token_run(s3)))
    }
}

/// Reads one console line: `stop` (in any case, with surrounding
/// whitespace) shuts down; a line opening with `op` names its second token
/// operator; anything else is ignored.
pub fn parse_command(line: &[u8]) -> (r: Command)
    ensures
        match r {
            Command::Stop => spec_is_stop(line@),
            Command::MakeOperator(name) => !spec_is_stop(line@) && spec_is_op(line@)
                && spec_second_token(line@) == Some(name@),
            Command::MissingOperatorName => !spec_is_stop(line@) && spec_is_op(line@)
                && spec_second_token(line@) is None,
            Command::Ignored => !spec_is_stop(line@) && !spec_is_op(line@),
        },
{
    let trimmed = trim_slice(line);
    let ghost lowered = spec_lower(trimmed@);
    proof {
        assert(lowered.len() == trimmed@.len());
    }

    if trimmed.len() == 4 {
        let stop = lower_b(trimmed[0]) == 115 && lower_b(trimmed[1]) == 116 && lower_b(
            trimmed[2],
        ) == 111 && lower_b(trimmed[3]) == 112;
        proof {
            assert(lowered[0] == lower_byte(trimmed@[0]) && lowered[1] == lower_byte(trimmed@[1])
                && lowered[2] == lower_byte(trimmed@[2]) && lowered[3] == lower_byte(
                trimmed@[3],
            ));
            if stop {
                assert(lowered =~= spec_stop_word());
            }
        }
        if stop {
            return Command::Stop;
        }
    }
    proof {
        assert(!spec_is_stop(line@));
    }

    if trimmed.len() >= 2 && lower_b(trimmed[0]) == 111 && lower_b(trimmed[1]) == 112 {
        proof {
            assert(lowered.take(2) =~= spec_op_word());
        }
        match second_token(line) {
            Some(name) => Command::MakeOperator(name),
            None => Command::MissingOperatorName,
        }
    } else {
        proof {
            if lowered.len() >= 2 {
                assert(lowered.take(2)[0] == lower_byte(trimmed@[0]) && lowered.take(2)[1]
                    == lower_byte(trimmed@[1]));
            }
        }
        Command::Ignored
    }
}

/// The ASCII case folding of one byte.
fn lower_b(b: u8) -> (r: u8)
    ensures
        r == lower_byte(b),
{
    if 65 <= b && b <= 90 {
        b + 32
    } else {
        b
    }
}

/// Picks the second whitespace-separated token out of `line`.
fn second_token(line: &[u8]) -> (r: Option<Vec<u8>>)
    ensures
        match r {
            Some(name) => spec_second_token(line@) == Some(name@),
            None => spec_second_token(line@) is None,
        },
{
    let a = ws_run_end(line, 0);
    let b = token_run_end(line, a);
    let c = ws_run_end(line, b);
    let d = token_run_end(line, c);
    proof {
        assert(line@.skip(0) =~= line@);
        let s1 = line@.skip(spec_ws_run(line@));
        assert(s1 =~= line@.skip(a as int));
        assert(forall|j: int| 0 <= j < s1.len() ==> s1[j] == line@[j + a]);
        assert(s1.skip(spec_token_run(s1)) =~= line@.skip(b as int));
        let s2 = s1.skip(spec_token_run(s1));
        assert(s2.skip(spec_ws_run(s2)) =~= line@.skip(c as int));
        let s3 = s2.skip(spec_ws_run(s2));
        assert(s3.take(spec_token_run(s3)) =~= line@.subrange(c as int, d as int));
    }
    if c == line.len() {
        return None;
    }
    Some(vstd::slice::slice_to_vec(&line[c..d]))
}

} // verus!
