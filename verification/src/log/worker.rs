use vstd::prelude::*;

verus! {

/// Size at which the audit log is rotated to `<path>.1`: 50 MiB.
pub const MAX_LOG_BYTES: u64 = 50 * 1024 * 1024;

/// Bytes a line takes in the log: the line and its newline.
pub open spec fn line_bytes(line_len: usize) -> int {
    line_len + 1
}

/// The log is rotated before a line that would take it past [`MAX_LOG_BYTES`].
pub open spec fn needs_rotation_spec(size: u64, line_len: usize) -> bool {
    size + line_bytes(line_len) > MAX_LOG_BYTES
}

/// Whether the log of `size` bytes must be rotated before a line of `line_len` bytes is
/// written.
pub fn needs_rotation(size: u64, line_len: usize) -> (r: bool)
    ensures
        r == needs_rotation_spec(size, line_len),
{
    (size as u128) + (line_len as u128) + 1 > MAX_LOG_BYTES as u128
}

/// The size of the log after a line of `line_len` bytes is written to it.
pub fn size_after_write(size: u64, line_len: usize) -> (r: u64)
    requires
        size + line_bytes(line_len) <= u64::MAX,
    ensures
        r == size + line_bytes(line_len),
{
    size + (line_len as u64) + 1
}

/// Rotation keeps the log bounded: when a write needs no rotation the log stays within
/// [`MAX_LOG_BYTES`]; after a rotation the new log holds just the line written.
pub proof fn lemma_log_stays_bounded(size: u64, line_len: usize)
    ensures
        !needs_rotation_spec(size, line_len) ==> size + line_bytes(line_len) <= MAX_LOG_BYTES,
        needs_rotation_spec(size, line_len) ==> 0 + line_bytes(line_len) == line_len + 1,
{
}

} // verus!
