use vstd::prelude::*;

verus! {

/// The window of the data dictionary that an `identify` command asks for.
///
/// Returns the clamped offset together with the bytes from there up to
/// `count` bytes further, clamped to the end of the dictionary.  This is
/// the body of the built-in `identify` handler: the host stitches the
/// windows back together to recover the dictionary.
pub fn identify_window<'a>(data: &'a [u8], offset: u32, count: u32) -> (r: (u32, &'a [u8]))
    requires
        data@.len() <= u32::MAX,
    ensures
        r.0 == if offset <= data@.len() {
            offset as int
        } else {
            data@.len() as int
        },
        r.1@ == data@.subrange(
            r.0 as int,
            if offset + count <= data@.len() {
                offset + count
            } else {
                data@.len() as int
            },
        ),
{
    let len32: u32 = data.len() as u32;
    let off = if offset < len32 {
        offset
    } else {
        len32
    };
    let end64: u64 = offset as u64 + count as u64;
    let end = if end64 < len32 as u64 {
        end64 as u32
    } else {
        len32
    };
    let slice = vstd::slice::slice_subrange(data, off as usize, end as usize);
    (off, slice)
}

/// Law (identify round-trip): the window starting where a prefix of the
/// dictionary ends extends that prefix; reading windows in order therefore
/// reassembles the dictionary byte for byte.
pub proof fn lemma_identify_concat(data: Seq<u8>, k: int, n: int)
    requires
        0 <= k <= data.len(),
        0 <= n,
    ensures
        data.subrange(0, k) + data.subrange(
            k,
            if k + n <= data.len() {
                k + n
            } else {
                data.len() as int
            },
        ) == data.subrange(
            0,
            if k + n <= data.len() {
                k + n
            } else {
                data.len() as int
            },
        ),
{
    let end = if k + n <= data.len() {
        k + n
    } else {
        data.len() as int
    };
    assert(data.subrange(0, k) + data.subrange(k, end) =~= data.subrange(0, end));
}

} // verus!
