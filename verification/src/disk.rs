//! Room on the disk. A sync that fills it in the middle of a write would leave torn files.
use crate::text::{contains_text, decimal, decimal_text, occurs_at};
use vstd::prelude::*;

verus! {

/// How many bytes have to be free before a sync starts: one GiB.
pub const MIN_FREE_BYTES: u64 = 1_073_741_824;

/// How many bytes are free, given the number of free blocks and the size of one.
pub fn free_bytes(blocks: u64, block_size: u64) -> (bytes: u64)
    requires
        blocks * block_size <= u64::MAX,
    ensures
        bytes == blocks * block_size,
{
    blocks * block_size
}

/// What is said where there is too little room.
pub open spec fn low_space_text(available: u64, directory: Seq<char>) -> Seq<char> {
    "Insufficient disk space: only "@ + decimal_text((available / 1_048_576) as nat)
        + " MiB available in "@ + directory + " (minimum 1 GiB)"@
}

/// Whether there is room for a sync.
pub fn check_min_disk_space(available_bytes: u64, directory: &str) -> (result: Result<(), String>)
    ensures
        match result {
            Ok(()) => available_bytes >= MIN_FREE_BYTES,
            Err(message) => available_bytes < MIN_FREE_BYTES && message@ == low_space_text(
                available_bytes,
                directory@,
            ),
        },
{
    if available_bytes < MIN_FREE_BYTES {
        let mut message = "Insufficient disk space: only ".to_owned();
        message.append(&decimal(available_bytes / 1_048_576));
        message.append(" MiB available in ");
        message.append(directory);
        message.append(" (minimum 1 GiB)");
        return Err(message);
    }
    Ok(())
}

/// A sync needs a gibibyte of room; what is said where there is less counts the whole mebibytes
/// that are left, and names the directory.
pub proof fn law_too_little_room_is_counted(available: u64, directory: Seq<char>, left: nat)
    requires
        left * 1_048_576 <= available < (left + 1) * 1_048_576,
    ensures
        MIN_FREE_BYTES == 1024 * 1024 * 1024,
        contains_text(
            low_space_text(available, directory),
            "only "@ + decimal_text(left) + " MiB available in "@ + directory,
        ),
{
    reveal_strlit("Insufficient disk space: only ");
    reveal_strlit("only ");
    let text = low_space_text(available, directory);
    let counted = "only "@ + decimal_text(left) + " MiB available in "@ + directory;
    assert(available / 1_048_576 == left);
    assert(text.subrange(25, 25 + counted.len() as int) =~= counted);
    assert(occurs_at(text, counted, 25));
}

} // verus!
