//! The name of the share that a path lies in: its first component.

use vstd::prelude::*;

verus! {

/// The size of a share name's buffer: at most 255 bytes and a NUL byte.
pub const SHARE_NAME_LEN: usize = 256;

/// A share name, filled up with NUL bytes.
pub type ShareName = [u8; 256];

/// A byte that ends a path component: NUL or `/`.
pub open spec fn ends_component(byte: u8) -> bool {
    byte == 0 || byte == 0x2f
}

/// The bytes up to the first one that ends a component.
pub open spec fn first_component(path: Seq<u8>) -> Seq<u8>
    decreases path.len(),
{
    if path.len() == 0 || ends_component(path[0]) {
        Seq::empty()
    } else {
        seq![path[0]] + first_component(path.skip(1))
    }
}

/// The path without the `/` that it may begin with.
pub open spec fn without_leading_slash(path: Seq<u8>) -> Seq<u8> {
    if path.len() > 0 && path[0] == 0x2f {
        path.skip(1)
    } else {
        path
    }
}

/// A name in a share name's buffer: cut off after 255 bytes and filled up with
/// NUL bytes.
pub open spec fn in_buffer(name: Seq<u8>) -> Seq<u8> {
    Seq::new(
        SHARE_NAME_LEN as nat,
        |k: int|
            if k < name.len() && k < SHARE_NAME_LEN - 1 {
                name[k]
            } else {
                0
            },
    )
}

/// The share name of a path.
pub open spec fn share_name(path: Seq<u8>) -> Seq<u8> {
    in_buffer(first_component(without_leading_slash(path)))
}

/// The name of a share: it has neither a NUL byte nor a `/`.
pub open spec fn is_name(name: Seq<u8>) -> bool {
    forall|k: int| 0 <= k < name.len() ==> !ends_component(#[trigger] name[k])
}

/// A component is a name, and it is followed by a byte that ends it or by the
/// end of the path.
pub proof fn first_component_is_name(path: Seq<u8>)
    ensures
        first_component(path).len() <= path.len(),
        is_name(first_component(path)),
        first_component(path) == path.take(first_component(path).len() as int),
        first_component(path).len() < path.len() ==> ends_component(
            path[first_component(path).len() as int],
        ),
    decreases path.len(),
{
    if path.len() > 0 && !ends_component(path[0]) {
        let rest = path.skip(1);
        first_component_is_name(rest);
        assert(first_component(path) =~= path.take(first_component(path).len() as int));
        assert forall|k: int| 0 <= k < first_component(path).len() implies !ends_component(
            #[trigger] first_component(path)[k],
        ) by {
            if k > 0 {
                assert(first_component(path)[k] == first_component(rest)[k - 1]);
            }
        }
    }
}

/// A name is its own first component, whatever follows the byte that ends it.
proof fn lemma_name_is_first_component(name: Seq<u8>, tail: Seq<u8>)
    requires
        is_name(name),
        tail.len() > 0 ==> ends_component(tail[0]),
    ensures
        first_component(name + tail) == name,
    decreases name.len(),
{
    let path = name + tail;
    if name.len() == 0 {
        assert(path =~= tail);
    } else {
        let rest = name.skip(1);
        assert(!ends_component(name[0]));
        assert forall|k: int| 0 <= k < rest.len() implies !ends_component(#[trigger] rest[k]) by {
            assert(rest[k] == name[k + 1]);
        }
        lemma_name_is_first_component(rest, tail);
        assert(path.skip(1) =~= rest + tail);
        assert(first_component(path) =~= name);
    }
}

/// The share name of a path is the name of its share: a leading `/`, what comes
/// after the share, and whatever the buffer of the path holds after a NUL byte
/// have no part in it.
pub proof fn share_name_of_path(name: Seq<u8>, tail: Seq<u8>)
    requires
        is_name(name),
        tail.len() > 0 ==> ends_component(tail[0]),
    ensures
        share_name(seq![0x2fu8] + name + tail) == in_buffer(name),
        name.len() > 0 || tail.len() == 0 || tail[0] == 0 ==> share_name(name + tail) == in_buffer(
            name,
        ),
{
    lemma_name_is_first_component(name, tail);
    let slashed = seq![0x2fu8] + name + tail;
    assert(slashed.skip(1) =~= name + tail);
    if name.len() > 0 {
        assert(!ends_component(name[0]));
        assert((name + tail)[0] == name[0]);
    } else {
        assert(name + tail =~= tail);
    }
}

/// The buffer holds the share's name byte by byte: where a path is a `/`, or none,
/// then a name without `/` and NUL, and then nothing, a NUL byte or a `/`, byte
/// `k` of the buffer is byte `k` of the name, up to 255 of them, and every other
/// byte is zero.
pub proof fn share_name_holds_the_name(slash: bool, name: Seq<u8>, tail: Seq<u8>)
    requires
        forall|k: int| 0 <= k < name.len() ==> #[trigger] name[k] != 0 && name[k] != 0x2f,
        tail.len() > 0 ==> tail[0] == 0 || tail[0] == 0x2f,
        slash || name.len() > 0 || tail.len() == 0 || tail[0] == 0,
    ensures
        ({
            let path = if slash {
                seq![0x2fu8] + name + tail
            } else {
                name + tail
            };
            &&& share_name(path).len() == 256
            &&& forall|k: int|
                0 <= k < 256 ==> #[trigger] share_name(path)[k] == (if k < name.len() && k < 255 {
                    name[k]
                } else {
                    0u8
                })
        }),
{
    assert(is_name(name));
    share_name_of_path(name, tail);
}

/// Of any path, byte `k` of the share name is the byte of the path that many
/// places after its start, or after a leading `/`, as long as neither that byte
/// nor one before it is a NUL byte or a `/`; from there on the buffer is zero.
pub proof fn share_name_copies_the_path(path: Seq<u8>, k: int)
    requires
        0 <= k < 256,
    ensures
        ({
            let from: int = if path.len() > 0 && path[0] == 0x2f {
                1
            } else {
                0
            };
            let copied = k < 255 && from + k < path.len() && forall|j: int|
                from <= j <= from + k ==> #[trigger] path[j] != 0 && path[j] != 0x2f;
            &&& share_name(path).len() == 256
            &&& copied ==> share_name(path)[k] == path[from + k]
            &&& !copied ==> share_name(path)[k] == 0
        }),
{
    let from: int = if path.len() > 0 && path[0] == 0x2f {
        1
    } else {
        0
    };
    let relative = without_leading_slash(path);
    let name = first_component(relative);
    first_component_is_name(relative);
    assert(relative =~= path.skip(from));
    let n = name.len() as int;
    if k < n {
        assert forall|j: int| from <= j <= from + k implies #[trigger] path[j] != 0 && path[j]
            != 0x2f by {
            assert(path[j] == relative[j - from]);
            assert(name[j - from] == relative[j - from]);
            assert(!ends_component(name[j - from]));
        }
        assert(name[k] == relative[k]);
    } else if n < relative.len() {
        assert(path[from + n] == relative[n]);
        assert(ends_component(relative[n]));
    }
}

/// Every share name ends in a NUL byte, and no `/` is in it.
pub proof fn share_name_is_terminated(path: Seq<u8>)
    ensures
        share_name(path).len() == SHARE_NAME_LEN,
        share_name(path)[SHARE_NAME_LEN - 1] == 0,
        !share_name(path).contains(0x2f),
{
    let name = first_component(without_leading_slash(path));
    first_component_is_name(without_leading_slash(path));
    assert forall|k: int| 0 <= k < SHARE_NAME_LEN implies #[trigger] share_name(path)[k] != 0x2f by {
        if k < name.len() && k < SHARE_NAME_LEN - 1 {
            assert(!ends_component(name[k]));
        }
    }
}

/// Two names of at most 255 bytes fill the buffer alike only if they are equal.
pub proof fn short_names_differ(one: Seq<u8>, other: Seq<u8>)
    requires
        is_name(one),
        is_name(other),
        one.len() < SHARE_NAME_LEN,
        other.len() < SHARE_NAME_LEN,
        in_buffer(one) == in_buffer(other),
    ensures
        one == other,
{
    let (a, b) = (in_buffer(one), in_buffer(other));
    assert(one.len() == other.len()) by {
        if one.len() < other.len() {
            let n = one.len() as int;
            assert(!ends_component(other[n]));
            assert(a[n] == 0 && b[n] == other[n]);
        }
        if other.len() < one.len() {
            let n = other.len() as int;
            assert(!ends_component(one[n]));
            assert(b[n] == 0 && a[n] == one[n]);
        }
    }
    assert forall|k: int| 0 <= k < one.len() implies one[k] == other[k] by {
        assert(a[k] == one[k] && b[k] == other[k]);
    }
    assert(one =~= other);
}

/// Writes the share name of a path to a buffer, over whatever it held.
pub fn get_share_name(path: &[u8], share: &mut ShareName) -> (done: Result<(), u32>)
    ensures
        done == Ok::<(), u32>(()),
        final(share)@ == share_name(path@),
{
    let mut k: usize = 0;
    while k < SHARE_NAME_LEN
        invariant
            k <= SHARE_NAME_LEN,
            forall|j: int| 0 <= j < k ==> #[trigger] share@[j] == 0,
        decreases SHARE_NAME_LEN - k,
    {
        share[k] = 0;
        k += 1;
    }
    let ghost relative = without_leading_slash(path@);
    let ghost name = first_component(relative);
    let mut i: usize = 0;
    if path.len() > 0 && path[0] == 0x2f {
        i = 1;
    }
    let ghost start: int = i as int;
    let mut j: usize = 0;
    proof {
        first_component_is_name(relative);
    }
    while i < path.len() && j < SHARE_NAME_LEN - 1 && path[i] != 0 && path[i] != 0x2f
        invariant
            0 <= start <= 1,
            i == start + j,
            i <= path.len(),
            j < SHARE_NAME_LEN,
            relative == path@.skip(start),
            name == first_component(relative),
            name.len() <= relative.len(),
            is_name(name),
            name == relative.take(name.len() as int),
            name.len() < relative.len() ==> ends_component(relative[name.len() as int]),
            j <= name.len(),
            forall|n: int| 0 <= n < SHARE_NAME_LEN ==> #[trigger] share@[n] == (if n < j {
                name[n]
            } else {
                0
            }),
        decreases path.len() - i,
    {
        assert(relative[j as int] == path@[i as int]);
        assert(j < name.len());
        assert(name[j as int] == relative[j as int]);
        share[j] = path[i];
        j += 1;
        i += 1;
    }
    proof {
        if j < name.len() && j < SHARE_NAME_LEN - 1 {
            assert(relative[j as int] == path@[i as int]);
            assert(!ends_component(name[j as int]));
            assert(name[j as int] == relative[j as int]);
        }
        assert(share@ =~= share_name(path@));
    }
    Ok(())
}

} // verus!
