//! A bounded buffer of console messages, oldest first.

use vstd::prelude::*;

verus! {

/// How many messages the buffer keeps before it starts dropping the oldest.
pub const MAX_STORED_LOGS: usize = 400;

/// The buffer after `message` was appended: once the buffer holds more than
/// `MAX_STORED_LOGS` messages, the oldest one is dropped first.
pub open spec fn logs_after_push(logs: Seq<String>, message: String) -> Seq<String> {
    if logs.len() > MAX_STORED_LOGS {
        logs.drop_first().push(message)
    } else {
        logs.push(message)
    }
}

/// Appends `log_message` to `logs`, dropping the oldest message when the
/// buffer is over its bound.
pub fn push_console_log(logs: &mut Vec<String>, log_message: String)
    ensures
        final(logs)@ == logs_after_push(old(logs)@, log_message),
{
    if logs.len() > MAX_STORED_LOGS {
        logs.remove(0);
    }
    logs.push(log_message);
}

/// A copy of the buffered messages, oldest first.
pub fn get_console_logs(logs: &Vec<String>) -> (r: Vec<String>)
    ensures
        r@ == logs@,
{
    let mut r: Vec<String> = Vec::new();
    let mut i: usize = 0;
    while i < logs.len()
        invariant
            i <= logs.len(),
            r@ == logs@.take(i as int),
        decreases logs.len() - i,
    {
        r.push(logs[i].clone());
        assert(logs@.take(i as int + 1) =~= logs@.take(i as int).push(logs@[i as int]));
        i += 1;
    }
    assert(logs@.take(logs.len() as int) =~= logs@);
    r
}

} // verus!
