use vstd::prelude::*;

use crate::bytes::{append_range, equals_tail};
use crate::constants::{
    DNS_MAX_HOSTNAME_LEN,
    DNS_MAX_LABEL_LEN,
    DNS_MAX_NAME_STEPS,
    DNS_MAX_POINTER_OFFSET,
};
use crate::errors::RenameError;

verus! {

/// Expands the name at `pos` of `packet` onto `acc`, following compression
/// pointers, with at most `fuel` more labels and pointer hops.
pub open spec fn expand(packet: Seq<u8>, pos: int, acc: Seq<u8>, fuel: nat) -> Result<
    Seq<u8>,
    RenameError,
>
    decreases fuel,
{
    if fuel == 0 || pos < 0 || pos >= packet.len() {
        Err(RenameError::MalformedName)
    } else if packet[pos] == 0 {
        if acc.len() + 1 > DNS_MAX_HOSTNAME_LEN {
            Err(RenameError::NameTooLong)
        } else {
            Ok(acc.push(0))
        }
    } else if packet[pos] >= 0xc0 {
        if pos + 1 >= packet.len() {
            Err(RenameError::MalformedName)
        } else {
            expand(
                packet,
                (packet[pos] - 0xc0) * 256 + packet[pos + 1],
                acc,
                (fuel - 1) as nat,
            )
        }
    } else if packet[pos] > DNS_MAX_LABEL_LEN {
        Err(RenameError::MalformedName)
    } else if pos + packet[pos] >= packet.len() {
        Err(RenameError::MalformedName)
    } else if acc.len() + packet[pos] + 1 >= DNS_MAX_HOSTNAME_LEN {
        Err(RenameError::NameTooLong)
    } else {
        let next = pos + packet[pos] + 1;
        expand(packet, next, acc + packet.subrange(pos, next), (fuel - 1) as nat)
    }
}

/// The name at `pos` of `packet`, with every compression pointer resolved.
pub open spec fn decoded_name(packet: Seq<u8>, pos: int) -> Result<Seq<u8>, RenameError> {
    expand(packet, pos, Seq::empty(), DNS_MAX_NAME_STEPS as nat)
}

/// The view of a byte buffer or an error.
pub open spec fn bytes_view(r: Result<Vec<u8>, RenameError>) -> Result<Seq<u8>, RenameError> {
    match r {
        Ok(v) => Ok(v@),
        Err(e) => Err(e),
    }
}

/// Reads the name at `offset` of `packet` as a flat sequence of labels that
/// ends with its terminator.
pub fn copy_uncompressed_name(packet: &[u8], offset: usize) -> (r: Result<Vec<u8>, RenameError>)
    ensures
        bytes_view(r) == decoded_name(packet@, offset as int),
{
    let plen = packet.len();
    let mut name: Vec<u8> = Vec::with_capacity(DNS_MAX_HOSTNAME_LEN);
    let mut pos: usize = offset;
    let mut fuel: usize = DNS_MAX_NAME_STEPS;
    while fuel > 0
        invariant
            plen == packet@.len(),
            name@.len() < DNS_MAX_HOSTNAME_LEN,
            expand(packet@, pos as int, name@, fuel as nat) == decoded_name(
                packet@,
                offset as int,
            ),
        decreases fuel,
    {
        if pos >= plen {
            return Err(RenameError::MalformedName);
        }
        let b = packet[pos];
        if b == 0 {
            name.push(0);
            return Ok(name);
        }
        if b >= 0xc0 {
            if pos + 1 >= plen {
                return Err(RenameError::MalformedName);
            }
            pos = (b - 0xc0) as usize * 256 + packet[pos + 1] as usize;
        } else {
            if b as usize > DNS_MAX_LABEL_LEN {
                return Err(RenameError::MalformedName);
            }
            if b as usize >= plen - pos {
                return Err(RenameError::MalformedName);
            }
            if name.len() + b as usize + 1 >= DNS_MAX_HOSTNAME_LEN {
                return Err(RenameError::NameTooLong);
            }
            let next = pos + b as usize + 1;
            append_range(&mut name, packet, pos, next);
            pos = next;
        }
        fuel = fuel - 1;
    }
    Err(RenameError::MalformedName)
}

/// Offsets at which names already written to an output buffer start, keyed
/// by the flat encoding of each name.
pub struct SuffixDict {
    keys: Vec<Vec<u8>>,
    offsets: Vec<u16>,
}

impl View for SuffixDict {
    type V = Seq<(Seq<u8>, u16)>;

    closed spec fn view(&self) -> Seq<(Seq<u8>, u16)> {
        Seq::new(self.keys@.len(), |i: int| (self.keys@[i]@, self.offsets@[i]))
    }
}

/// The offset stored for `key`, looking from entry `i` on; the first entry wins.
pub open spec fn lookup_from(d: Seq<(Seq<u8>, u16)>, key: Seq<u8>, i: int) -> Option<u16>
    decreases d.len() - i,
{
    if i < 0 || i >= d.len() {
        None
    } else if d[i].0 == key {
        Some(d[i].1)
    } else {
        lookup_from(d, key, i + 1)
    }
}

/// The offset stored for `key`.
pub open spec fn lookup(d: Seq<(Seq<u8>, u16)>, key: Seq<u8>) -> Option<u16> {
    lookup_from(d, key, 0)
}

/// The two bytes of a compression pointer to `off`.
pub open spec fn pointer_bytes(off: u16) -> Seq<u8> {
    seq![(0xc0 + off / 256) as u8, (off % 256) as u8]
}

/// Where the label that starts at `i` of `name` ends (clipped to the name).
pub open spec fn label_end(name: Seq<u8>, i: int) -> int {
    if i + name[i] + 1 <= name.len() {
        i + name[i] + 1
    } else {
        name.len() as int
    }
}

/// What writing `name[i..]` at offset `out_len` of an output buffer emits,
/// and the dictionary afterwards: a pointer for the longest suffix that `d`
/// already holds, literal labels before it, and an entry for each suffix
/// written literally at an offset that a pointer can reach.
pub open spec fn compress_from(d: Seq<(Seq<u8>, u16)>, out_len: int, name: Seq<u8>, i: int) -> (
    Seq<u8>,
    Seq<(Seq<u8>, u16)>,
)
    decreases name.len() - i,
{
    if i < 0 || i >= name.len() || name[i] == 0 {
        (seq![0u8], d)
    } else {
        let suffix = name.subrange(i, name.len() as int);
        match lookup(d, suffix) {
            Some(off) => (pointer_bytes(off), d),
            None => {
                let end = label_end(name, i);
                let d2 = if out_len < DNS_MAX_POINTER_OFFSET {
                    d.push((suffix, out_len as u16))
                } else {
                    d
                };
                let rest = compress_from(d2, out_len + (end - i), name, end);
                (name.subrange(i, end) + rest.0, rest.1)
            }
        }
    }
}

/// What writing the whole of `name` at offset `out_len` emits, and the
/// dictionary afterwards.
pub open spec fn compressed(d: Seq<(Seq<u8>, u16)>, out_len: int, name: Seq<u8>) -> (
    Seq<u8>,
    Seq<(Seq<u8>, u16)>,
) {
    compress_from(d, out_len, name, 0)
}

impl SuffixDict {
    /// One offset per key, each one that a pointer can reach.
    pub closed spec fn wf(&self) -> bool {
        &&& self.keys@.len() == self.offsets@.len()
        &&& forall|i: int|
            0 <= i < self.offsets@.len() ==> #[trigger] self.offsets@[i] < DNS_MAX_POINTER_OFFSET
    }

    /// An empty dictionary.
    pub fn new() -> (r: SuffixDict)
        ensures
            r.wf(),
            r@ == Seq::<(Seq<u8>, u16)>::empty(),
    {
        let r = SuffixDict { keys: Vec::new(), offsets: Vec::new() };
        assert(r@ =~= Seq::<(Seq<u8>, u16)>::empty());
        r
    }

    /// The offset stored for `name[start..]`.
    pub fn find_tail(&self, name: &[u8], start: usize) -> (r: Option<u16>)
        requires
            self.wf(),
            start <= name@.len(),
        ensures
            r == lookup(self@, name@.subrange(start as int, name@.len() as int)),
            r matches Some(off) ==> off < DNS_MAX_POINTER_OFFSET,
    {
        let ghost key = name@.subrange(start as int, name@.len() as int);
        let n = self.keys.len();
        let mut j: usize = 0;
        while j < n
            invariant
                self.wf(),
                key == name@.subrange(start as int, name@.len() as int),
                n == self@.len(),
                start <= name@.len(),
                j <= n,
                lookup_from(self@, key, j as int) == lookup(self@, key),
            decreases n - j,
        {
            assert(self@[j as int] == (self.keys@[j as int]@, self.offsets@[j as int]));
            if equals_tail(self.keys[j].as_slice(), name, start) {
                return Some(self.offsets[j]);
            }
            j = j + 1;
        }
        None
    }

    fn insert(&mut self, key: Vec<u8>, off: u16)
        requires
            old(self).wf(),
            off < DNS_MAX_POINTER_OFFSET,
        ensures
            final(self).wf(),
            final(self)@ == old(self)@.push((key@, off)),
    {
        self.keys.push(key);
        self.offsets.push(off);
        assert(self@ =~= old(self)@.push((key@, off)));
    }
}

/// Writes `name` to the end of `out`, as a pointer where `dict` holds the
/// rest of the name, and records in `dict` each suffix written literally.
pub fn copy_compressed_name(dict: &mut SuffixDict, out: &mut Vec<u8>, name: &[u8])
    requires
        old(dict).wf(),
    ensures
        final(dict).wf(),
        final(out)@ == old(out)@ + compressed(old(dict)@, old(out)@.len() as int, name@).0,
        final(dict)@ == compressed(old(dict)@, old(out)@.len() as int, name@).1,
{
    let ghost goal = compressed(dict@, out@.len() as int, name@);
    let n = name.len();
    let mut i: usize = 0;
    loop
        invariant
            n == name@.len(),
            goal == compressed(old(dict)@, old(out)@.len() as int, name@),
            i <= n,
            dict.wf(),
            out@ + compress_from(dict@, out@.len() as int, name@, i as int).0 == old(out)@
                + goal.0,
            compress_from(dict@, out@.len() as int, name@, i as int).1 == goal.1,
        decreases n - i,
    {
        if i >= n || name[i] == 0 {
            assert(compress_from(dict@, out@.len() as int, name@, i as int) == (
                seq![0u8],
                dict@,
            ));
            out.push(0);
            assert(out@ =~= old(out)@ + goal.0);
            return;
        }
        match dict.find_tail(name, i) {
            Some(off) => {
                assert(compress_from(dict@, out@.len() as int, name@, i as int) == (
                    pointer_bytes(off),
                    dict@,
                ));
                out.push(0xc0 + (off / 256) as u8);
                out.push((off % 256) as u8);
                assert(out@ =~= old(out)@ + goal.0);
                return;
            },
            None => {
                let end = if name[i] as usize + 1 <= n - i {
                    i + name[i] as usize + 1
                } else {
                    n
                };
                let ghost prev_len = out@.len() as int;
                let ghost prev_dict = dict@;
                if out.len() < DNS_MAX_POINTER_OFFSET {
                    let mut key: Vec<u8> = Vec::new();
                    append_range(&mut key, name, i, n);
                    dict.insert(key, out.len() as u16);
                }
                append_range(out, name, i, end);
                assert(compress_from(prev_dict, prev_len, name@, i as int) == (
                    name@.subrange(i as int, end as int) + compress_from(
                        dict@,
                        out@.len() as int,
                        name@,
                        end as int,
                    ).0,
                    compress_from(dict@, out@.len() as int, name@, end as int).1,
                ));
                i = end;
            },
        }
    }
}

} // verus!
