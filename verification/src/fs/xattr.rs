//! Extended attributes of an image.
use crate::bytes;
use crate::fs;
use crate::fs::{ErofsReader, ReadError};
use crate::metadata::ErofsInode;
use vstd::prelude::*;

verus! {

/// An extended attribute.
pub struct Xattr {
    pub name: Vec<u8>,
    pub value: Vec<u8>,
}

#[verifier::ext_equal]
pub struct XattrModel {
    pub name: Seq<u8>,
    pub value: Seq<u8>,
}

impl View for Xattr {
    type V = XattrModel;

    open spec fn view(&self) -> XattrModel {
        XattrModel { name: self.name@, value: self.value@ }
    }
}

/// The attributes of a list, by their views.
pub open spec fn xattrs_view(xattrs: Seq<Xattr>) -> Seq<XattrModel> {
    Seq::new(xattrs.len(), |i: int| xattrs[i]@)
}

// ---------------------------------------------------------------------------
// Model
// ---------------------------------------------------------------------------

/// The start of the names with this index: "user.", "system.posix_acl_access",
/// "system.posix_acl_default", "trusted." and "security.".
pub open spec fn name_prefix(index: u8) -> Option<Seq<u8>> {
    if index == 1 {
        Some(seq![117u8, 115, 101, 114, 46])
    } else if index == 2 {
        Some(
            seq![
                115u8, 121, 115, 116, 101, 109, 46, 112, 111, 115, 105, 120, 95, 97, 99, 108, 95,
                97, 99, 99, 101, 115, 115,
            ],
        )
    } else if index == 3 {
        Some(
            seq![
                115u8, 121, 115, 116, 101, 109, 46, 112, 111, 115, 105, 120, 95, 97, 99, 108, 95,
                100, 101, 102, 97, 117, 108, 116,
            ],
        )
    } else if index == 4 {
        Some(seq![116u8, 114, 117, 115, 116, 101, 100, 46])
    } else if index == 6 {
        Some(seq![115u8, 101, 99, 117, 114, 105, 116, 121, 46])
    } else {
        None
    }
}

/// Length of the entry at `at`: a 4-byte head, the name and the value.
pub open spec fn entry_len(s: Seq<u8>, at: int) -> int {
    4 + s[at] + bytes::get16(s, at + 2)
}

/// The entry at `at` stands in `s`.
pub open spec fn entry_valid(s: Seq<u8>, at: int) -> bool {
    at + 4 <= s.len() && at + entry_len(s, at) <= s.len()
}

/// The attribute that the entry at `at` holds: one, or none if the index of its
/// name is unknown.
pub open spec fn entry_xattrs(s: Seq<u8>, at: int) -> Seq<XattrModel> {
    let name_end = at + 4 + s[at];
    match name_prefix(s[at + 1]) {
        None => Seq::empty(),
        Some(prefix) => seq![
            XattrModel {
                name: prefix + s.subrange(at + 4, name_end),
                value: s.subrange(name_end, at + entry_len(s, at)),
            },
        ],
    }
}

/// `n`, rounded up to a multiple of 4.
pub open spec fn round_up_4(n: int) -> int {
    (n + 3) / 4 * 4
}

/// The attributes of the entries from `at` on, each at a multiple of 4 bytes
/// from the one before.
pub open spec fn inline_xattrs(s: Seq<u8>, at: int) -> Result<Seq<XattrModel>, ReadError>
    decreases
            (if at < s.len() {
                s.len() - at
            } else {
                0
            }),
{
    if at >= s.len() {
        Ok(Seq::empty())
    } else if !entry_valid(s, at) {
        Err(ReadError::CorruptXattrs)
    } else {
        match inline_xattrs(s, at + round_up_4(entry_len(s, at))) {
            Err(e) => Err(e),
            Ok(rest) => Ok(entry_xattrs(s, at) + rest),
        }
    }
}

impl<'a> ErofsReader<'a> {
    /// Reading a shared attribute: it stands at a multiple of 4 bytes in the area
    /// of shared attributes.
    pub open spec fn shared_xattr(self, id: u32) -> Result<Seq<XattrModel>, ReadError> {
        let at = self.spec_sb().xattr_blkaddr * 4096 + id * 4;
        match fs::image_slice(self.image@, at, 4) {
            Err(e) => Err(e),
            Ok(_) => match fs::image_slice(self.image@, at, entry_len(self.image@, at)) {
                Err(e) => Err(e),
                Ok(s) => Ok(entry_xattrs(s, 0)),
            },
        }
    }

    /// Reading the first `n` shared attributes that an area of attributes names.
    pub open spec fn shared_xattrs(self, area: Seq<u8>, n: nat) -> Result<
        Seq<XattrModel>,
        ReadError,
    >
        decreases n,
    {
        if n == 0 {
            Ok(Seq::empty())
        } else {
            match self.shared_xattrs(area, (n - 1) as nat) {
                Err(e) => Err(e),
                Ok(before) => match self.shared_xattr(bytes::get32(area, 12 + 4 * (n - 1))) {
                    Err(e) => Err(e),
                    Ok(more) => Ok(before + more),
                },
            }
        }
    }

    /// Reading the attributes of an inode: those of its own, then the shared
    /// ones. The area behind the header of the inode has a 12-byte head, the
    /// numbers of the shared attributes and the entries of the others.
    pub open spec fn xattrs(self, nid: u64, inode: ErofsInode) -> Result<
        Seq<XattrModel>,
        ReadError,
    > {
        if inode.spec_xattr_size() == 0 {
            Ok(Seq::empty())
        } else {
            match fs::image_slice(
                self.image@,
                self.inode_offset(nid) + inode.spec_header_size(),
                inode.spec_xattr_size() as int,
            ) {
                Err(e) => Err(e),
                Ok(area) => if 12 + 4 * area[4] > area.len() {
                    Err(ReadError::CorruptXattrs)
                } else {
                    match inline_xattrs(area, 12 + 4 * area[4]) {
                        Err(e) => Err(e),
                        Ok(own) => match self.shared_xattrs(area, area[4] as nat) {
                            Err(e) => Err(e),
                            Ok(shared) => Ok(own + shared),
                        },
                    }
                },
            }
        }
    }
}

// ---------------------------------------------------------------------------
// Reading
// ---------------------------------------------------------------------------

fn prefix_of(index: u8) -> (r: Option<Vec<u8>>)
    ensures
        match r {
            Some(prefix) => name_prefix(index) == Some(prefix@),
            None => name_prefix(index) is None,
        },
{
    let prefix: Option<Vec<u8>> = if index == 1 {
        Some(vec![117u8, 115, 101, 114, 46])
    } else if index == 2 {
        Some(
            vec![
                115u8, 121, 115, 116, 101, 109, 46, 112, 111, 115, 105, 120, 95, 97, 99, 108, 95,
                97, 99, 99, 101, 115, 115,
            ],
        )
    } else if index == 3 {
        Some(
            vec![
                115u8, 121, 115, 116, 101, 109, 46, 112, 111, 115, 105, 120, 95, 97, 99, 108, 95,
                100, 101, 102, 97, 117, 108, 116,
            ],
        )
    } else if index == 4 {
        Some(vec![116u8, 114, 117, 115, 116, 101, 100, 46])
    } else if index == 6 {
        Some(vec![115u8, 101, 99, 117, 114, 105, 116, 121, 46])
    } else {
        None
    };
    assert(prefix matches Some(v) ==> v@ =~= name_prefix(index)->0);
    prefix
}

/// Add the attribute that the entry at `at` holds.
fn read_entry(s: &[u8], at: usize, out: &mut Vec<Xattr>)
    requires
        entry_valid(s@, at as int),
    ensures
        xattrs_view(final(out)@) == xattrs_view(old(out)@) + entry_xattrs(s@, at as int),
{
    let ghost before = out@;
    assert(at + entry_len(s@, at as int) <= s.len());
    let name_end: usize = at + 4 + s[at] as usize;
    let end: usize = name_end + bytes::read_u16(s, at + 2) as usize;
    match prefix_of(s[at + 1]) {
        None => {},
        Some(prefix) => {
            let mut name: Vec<u8> = prefix;
            let mut rest: Vec<u8> = vstd::slice::slice_to_vec(
                vstd::slice::slice_subrange(s, at + 4, name_end),
            );
            name.append(&mut rest);
            let value: Vec<u8> = vstd::slice::slice_to_vec(
                vstd::slice::slice_subrange(s, name_end, end),
            );
            out.push(Xattr { name, value });
        },
    }
    assert(xattrs_view(out@) =~= xattrs_view(before) + entry_xattrs(s@, at as int));
}

/// Read the entries from `from` on.
fn read_inline(s: &[u8], from: usize) -> (r: Result<Vec<Xattr>, ReadError>)
    requires
        s@.len() + 0x2_0000 <= usize::MAX,
    ensures
        match r {
            Ok(v) => inline_xattrs(s@, from as int) == Ok::<Seq<XattrModel>, ReadError>(
                xattrs_view(v@),
            ),
            Err(e) => inline_xattrs(s@, from as int) == Err::<Seq<XattrModel>, ReadError>(e),
        },
{
    let mut out: Vec<Xattr> = Vec::new();
    let mut at: usize = from;
    let ghost rest = inline_xattrs(s@, from as int);
    proof {
        if let Ok(all) = rest {
            assert(xattrs_view(out@) + all =~= all);
        }
    }
    while at < s.len()
        invariant
            s@.len() + 0x2_0000 <= usize::MAX,
            inline_xattrs(s@, from as int) == (match inline_xattrs(s@, at as int) {
                Err(e) => Err::<Seq<XattrModel>, ReadError>(e),
                Ok(rest) => Ok(xattrs_view(out@) + rest),
            }),
        decreases
                (if at < s@.len() {
                    s@.len() - at
                } else {
                    0
                }),
    {
        if s.len() - at < 4 {
            return Err(ReadError::CorruptXattrs);
        }
        let len: usize = 4 + s[at] as usize + bytes::read_u16(s, at + 2) as usize;
        if s.len() - at < len {
            return Err(ReadError::CorruptXattrs);
        }
        let ghost before = out@;
        read_entry(s, at, &mut out);
        let ghost old_at = at as int;
        at = at + (len + 3) / 4 * 4;
        proof {
            if let Ok(rest) = inline_xattrs(s@, at as int) {
                assert(xattrs_view(before) + (entry_xattrs(s@, old_at) + rest) =~= xattrs_view(
                    out@,
                ) + rest);
            }
        }
    }
    assert(xattrs_view(out@) + Seq::<XattrModel>::empty() =~= xattrs_view(out@));
    Ok(out)
}

impl<'a> ErofsReader<'a> {
    /// Add a shared attribute.
    fn read_shared(&self, id: u32, out: &mut Vec<Xattr>) -> (r: Result<(), ReadError>)
        requires
            self.wf(),
        ensures
            match r {
                Ok(_) => self.shared_xattr(id) matches Ok(more) && xattrs_view(final(out)@)
                    == xattrs_view(old(out)@) + more,
                Err(e) => self.shared_xattr(id) == Err::<Seq<XattrModel>, ReadError>(e),
            },
    {
        let at: u64 = self.sb().xattr_blkaddr as u64 * 4096 + id as u64 * 4;
        if at > usize::MAX as u64 {
            return Err(ReadError::OffsetOverflow);
        }
        match self.mmap_slice(at as usize, 4) {
            Err(e) => Err(e),
            Ok(head) => {
                let len: usize = 4 + head[0] as usize + bytes::read_u16(head, 2) as usize;
                assert(head@[0] == self.image@[at as int]);
                assert(bytes::get16(head@, 2) == bytes::get16(self.image@, at + 2));
                match self.mmap_slice(at as usize, len) {
                    Err(e) => Err(e),
                    Ok(s) => {
                        assert(s@[0] == self.image@[at as int]);
                        assert(bytes::get16(s@, 2) == bytes::get16(self.image@, at + 2));
                        assert(entry_valid(s@, 0));
                        read_entry(s, 0, out);
                        Ok(())
                    },
                }
            },
        }
    }

    /// The shared attributes that an area of attributes names.
    fn read_all_shared(&self, area: &[u8], count: usize) -> (r: Result<Vec<Xattr>, ReadError>)
        requires
            self.wf(),
            12 + 4 * count <= area@.len(),
        ensures
            match r {
                Ok(v) => self.shared_xattrs(area@, count as nat) == Ok::<
                    Seq<XattrModel>,
                    ReadError,
                >(xattrs_view(v@)),
                Err(e) => self.shared_xattrs(area@, count as nat) == Err::<
                    Seq<XattrModel>,
                    ReadError,
                >(e),
            },
    {
        let mut out: Vec<Xattr> = Vec::new();
        let mut i: usize = 0;
        assert(xattrs_view(out@) =~= Seq::<XattrModel>::empty());
        while i < count
            invariant
                self.wf(),
                i <= count,
                12 + 4 * count <= area@.len(),
                self.shared_xattrs(area@, i as nat) == Ok::<Seq<XattrModel>, ReadError>(
                    xattrs_view(out@),
                ),
            decreases count - i,
        {
            assert(12 + 4 * count <= area.len());
            let id: u32 = bytes::read_u32(area, 12 + 4 * i);
            match self.read_shared(id, &mut out) {
                Err(e) => {
                    proof {
                        self.lemma_shared_error(area@, (i + 1) as nat, count as nat, e);
                    }
                    return Err(e);
                },
                Ok(_) => {},
            }
            i += 1;
        }
        Ok(out)
    }

    /// The extended attributes of an inode.
    pub fn read_xattrs(&self, nid: u64, inode: &ErofsInode) -> (r: Result<Vec<Xattr>, ReadError>)
        requires
            self.wf(),
            self.nid_fits(nid),
        ensures
            match r {
                Ok(v) => self.xattrs(nid, *inode) == Ok::<Seq<XattrModel>, ReadError>(
                    xattrs_view(v@),
                ),
                Err(e) => self.xattrs(nid, *inode) == Err::<Seq<XattrModel>, ReadError>(e),
            },
    {
        let size: usize = inode.xattr_size();
        if size == 0 {
            let none: Vec<Xattr> = Vec::new();
            assert(xattrs_view(none@) =~= Seq::<XattrModel>::empty());
            return Ok(none);
        }
        let base: usize = self.nid_to_offset(nid);
        let head: usize = inode.header_size();
        if base > usize::MAX - head {
            return Err(ReadError::OffsetOverflow);
        }
        let area: &[u8] = match self.mmap_slice(base + head, size) {
            Err(e) => {
                return Err(e);
            },
            Ok(area) => area,
        };
        let count: usize = area[4] as usize;
        if 12 + 4 * count > area.len() {
            return Err(ReadError::CorruptXattrs);
        }
        let mut out: Vec<Xattr> = match read_inline(area, 12 + 4 * count) {
            Err(e) => {
                return Err(e);
            },
            Ok(out) => out,
        };
        let mut shared: Vec<Xattr> = match self.read_all_shared(area, count) {
            Err(e) => {
                return Err(e);
            },
            Ok(shared) => shared,
        };
        let ghost own = out@;
        let ghost more = shared@;
        out.append(&mut shared);
        assert(xattrs_view(out@) =~= xattrs_view(own) + xattrs_view(more));
        Ok(out)
    }

    proof fn lemma_shared_error(self, area: Seq<u8>, m: nat, n: nat, e: ReadError)
        requires
            m <= n,
            self.shared_xattrs(area, m) == Err::<Seq<XattrModel>, ReadError>(e),
        ensures
            self.shared_xattrs(area, n) == Err::<Seq<XattrModel>, ReadError>(e),
        decreases n,
    {
        if m < n {
            self.lemma_shared_error(area, m, (n - 1) as nat, e);
        }
    }
}

} // verus!
