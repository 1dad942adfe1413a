//! Delimiter framing: one command is everything up to and including the
//! first statement delimiter, or the whole input where there is none.
//!
//! The framing layer knows nothing of SQL. A delimiter inside a quoted
//! string literal ends the command like any other.

use vstd::prelude::*;

verus! {

/// The byte that ends a command on the wire: the ASCII semicolon.
pub const SQL_DELIMITER: u8 = 0x3B;

/// `bytes` holds a delimiter somewhere.
pub open spec fn has_delimiter(bytes: Seq<u8>) -> bool {
    exists|i: int| 0 <= i < bytes.len() && bytes[i] == SQL_DELIMITER
}

/// Position `i` holds the first delimiter of `bytes`.
pub open spec fn is_first_delimiter(bytes: Seq<u8>, i: int) -> bool {
    &&& 0 <= i < bytes.len()
    &&& bytes[i] == SQL_DELIMITER
    &&& forall|j: int| 0 <= j < i ==> bytes[j] != SQL_DELIMITER
}

/// Number of bytes that make up the command at the head of `bytes`: through
/// the first delimiter where there is one, else all of them.
pub open spec fn command_len(bytes: Seq<u8>) -> int {
    if exists|i: int| is_first_delimiter(bytes, i) {
        (choose|i: int| is_first_delimiter(bytes, i)) + 1
    } else {
        bytes.len() as int
    }
}

/// The command at the head of `bytes`.
pub open spec fn command_of(bytes: Seq<u8>) -> Seq<u8> {
    bytes.take(command_len(bytes))
}

/// The first delimiter is unique, so it fixes the length of the command.
pub proof fn lemma_command_len_at(bytes: Seq<u8>, i: int)
    requires
        is_first_delimiter(bytes, i),
    ensures
        command_len(bytes) == i + 1,
        command_of(bytes) == bytes.take(i + 1),
{
    let k = choose|k: int| is_first_delimiter(bytes, k);
    assert(is_first_delimiter(bytes, k));
    if k < i {
        assert(bytes[k] != SQL_DELIMITER);
    }
    if i < k {
        assert(bytes[i] != SQL_DELIMITER);
    }
}

/// Without a delimiter the whole input is the command.
pub proof fn lemma_command_len_whole(bytes: Seq<u8>)
    requires
        !has_delimiter(bytes),
    ensures
        command_len(bytes) == bytes.len(),
        command_of(bytes) == bytes,
{
    if exists|i: int| is_first_delimiter(bytes, i) {
        let k = choose|k: int| is_first_delimiter(bytes, k);
        assert(0 <= k < bytes.len() && bytes[k] == SQL_DELIMITER);
    }
}

/// A delimiter at `n` means that a first delimiter stands at or before `n`.
proof fn lemma_first_delimiter_before(bytes: Seq<u8>, n: int)
    requires
        0 <= n < bytes.len(),
        bytes[n] == SQL_DELIMITER,
    ensures
        exists|i: int| is_first_delimiter(bytes, i) && i <= n,
    decreases n,
{
    if forall|j: int| 0 <= j < n ==> bytes[j] != SQL_DELIMITER {
        assert(is_first_delimiter(bytes, n));
    } else {
        let j = choose|j: int| 0 <= j < n && bytes[j] == SQL_DELIMITER;
        lemma_first_delimiter_before(bytes, j);
    }
}

/// The command is a prefix of the input. It ends at the first delimiter of
/// the input and holds no other; without a delimiter it is the whole input.
pub proof fn lemma_command_shape(bytes: Seq<u8>)
    ensures
        0 <= command_len(bytes) <= bytes.len(),
        command_of(bytes).len() == command_len(bytes),
        command_of(bytes).is_prefix_of(bytes),
        has_delimiter(bytes) ==> is_first_delimiter(bytes, command_len(bytes) - 1),
        has_delimiter(bytes) ==> is_first_delimiter(command_of(bytes), command_len(bytes) - 1),
        !has_delimiter(bytes) ==> command_of(bytes) == bytes,
        has_delimiter(command_of(bytes)) == has_delimiter(bytes),
{
    if has_delimiter(bytes) {
        let n = choose|n: int| 0 <= n < bytes.len() && bytes[n] == SQL_DELIMITER;
        lemma_first_delimiter_before(bytes, n);
        let i = choose|i: int| is_first_delimiter(bytes, i) && i <= n;
        lemma_command_len_at(bytes, i);
        assert(is_first_delimiter(command_of(bytes), i));
        assert(command_of(bytes)[i] == SQL_DELIMITER);
    } else {
        lemma_command_len_whole(bytes);
    }
}

/// Bytes that follow the first delimiter have no part in the command:
/// whatever a client sends after it is never looked at.
pub proof fn lemma_rest_ignored(head: Seq<u8>, rest: Seq<u8>)
    requires
        has_delimiter(head),
    ensures
        command_of(head + rest) == command_of(head),
{
    lemma_command_shape(head);
    let i = command_len(head) - 1;
    assert(is_first_delimiter(head + rest, i)) by {
        assert((head + rest)[i] == head[i]);
        assert forall|j: int| 0 <= j < i implies (head + rest)[j] != SQL_DELIMITER by {
            assert((head + rest)[j] == head[j]);
        }
    }
    lemma_command_len_at(head + rest, i);
    lemma_command_len_at(head, i);
    assert((head + rest).take(i + 1) =~= head.take(i + 1));
}

/// The command ends at the first delimiter whatever stands before it: the
/// framing layer does not know quoting, so a delimiter inside a string
/// literal cuts the literal in two.
pub proof fn lemma_cut_at_first_delimiter(before: Seq<u8>, after: Seq<u8>)
    requires
        !has_delimiter(before),
    ensures
        command_of(before + seq![SQL_DELIMITER] + after) == before + seq![SQL_DELIMITER],
{
    let head = before + seq![SQL_DELIMITER];
    let n = before.len() as int;
    assert(is_first_delimiter(head, n)) by {
        assert(head[n] == SQL_DELIMITER);
        assert forall|j: int| 0 <= j < n implies head[j] != SQL_DELIMITER by {
            assert(head[j] == before[j]);
        }
    }
    lemma_command_len_at(head, n);
    assert(head.take(n + 1) =~= head);
    assert(has_delimiter(head));
    lemma_rest_ignored(head, after);
}

/// Cutting a command twice changes nothing.
pub proof fn lemma_command_idempotent(bytes: Seq<u8>)
    ensures
        command_of(command_of(bytes)) == command_of(bytes),
{
    lemma_command_shape(bytes);
    if has_delimiter(bytes) {
        let i = command_len(bytes) - 1;
        lemma_command_len_at(command_of(bytes), i);
        assert(command_of(bytes).take(i + 1) =~= command_of(bytes));
    }
}

/// The command is the same whether the input is seen at once or in two
/// pieces, the first already cut.
pub proof fn lemma_command_of_pieces(first: Seq<u8>, second: Seq<u8>)
    ensures
        command_of(command_of(first) + second) == command_of(first + second),
{
    lemma_command_shape(first);
    if has_delimiter(first) {
        lemma_rest_ignored(first, second);
        lemma_rest_ignored(command_of(first), second);
        lemma_command_idempotent(first);
    }
}

/// A delimiter in the second piece is where the command ends when the first
/// piece holds none.
pub proof fn lemma_command_ends_in_second(first: Seq<u8>, second: Seq<u8>)
    requires
        !has_delimiter(first),
    ensures
        has_delimiter(first + second) == has_delimiter(second),
        command_of(first + second) == first + command_of(second),
{
    lemma_command_shape(second);
    if has_delimiter(second) {
        let i = command_len(second) - 1;
        let n = first.len() as int;
        assert((first + second)[n + i] == second[i]);
        assert(is_first_delimiter(first + second, n + i)) by {
            assert forall|j: int| 0 <= j < n + i implies (first + second)[j] != SQL_DELIMITER by {
                if j < n {
                    assert((first + second)[j] == first[j]);
                } else {
                    assert((first + second)[j] == second[j - n]);
                }
            }
        }
        lemma_command_len_at(first + second, n + i);
        assert((first + second).take(n + i + 1) =~= first + second.take(i + 1));
    } else {
        assert(!has_delimiter(first + second)) by {
            if has_delimiter(first + second) {
                let k = choose|k: int|
                    0 <= k < (first + second).len() && (first + second)[k] == SQL_DELIMITER;
                if k < first.len() {
                    assert(first[k] == SQL_DELIMITER);
                } else {
                    assert(second[k - first.len()] == SQL_DELIMITER);
                }
            }
        }
        lemma_command_len_whole(first + second);
    }
}

/// Finds the first delimiter of `bytes`.
pub fn find_delimiter(bytes: &[u8]) -> (pos: Option<usize>)
    ensures
        match pos {
            Some(i) => is_first_delimiter(bytes@, i as int),
            None => !has_delimiter(bytes@),
        },
{
    let mut i: usize = 0;
    while i < bytes.len()
        invariant
            i <= bytes.len(),
            forall|j: int| 0 <= j < i ==> bytes@[j] != SQL_DELIMITER,
        decreases bytes.len() - i,
    {
        if bytes[i] == SQL_DELIMITER {
            return Some(i);
        }
        i += 1;
    }
    None
}

/// Appends the first `count` bytes of `bytes` to `buffer`.
pub(crate) fn append_prefix(buffer: &mut Vec<u8>, bytes: &[u8], count: usize)
    requires
        count <= bytes@.len(),
    ensures
        final(buffer)@ == old(buffer)@ + bytes@.take(count as int),
{
    let mut k: usize = 0;
    while k < count
        invariant
            k <= count <= bytes@.len(),
            buffer@ == old(buffer)@ + bytes@.take(k as int),
        decreases count - k,
    {
        buffer.push(bytes[k]);
        assert(bytes@.take(k + 1) =~= bytes@.take(k as int).push(bytes@[k as int]));
        k += 1;
    }
}

/// Cuts the command off the head of `bytes`, delimiter included.
pub fn frame_command(bytes: &[u8]) -> (command: Vec<u8>)
    ensures
        command@ == command_of(bytes@),
{
    let len: usize = bytes.len();
    let end: usize = match find_delimiter(bytes) {
        Some(i) => {
            proof {
                lemma_command_len_at(bytes@, i as int);
            }
            i + 1
        },
        None => {
            proof {
                lemma_command_len_whole(bytes@);
            }
            len
        },
    };
    let mut command: Vec<u8> = Vec::new();
    append_prefix(&mut command, bytes, end);
    command
}

} // verus!
