//! Assembly of the run's deliverable: one zip archive holding every
//! produced output under its own base name, flat, deflate-compressed.
//!
//! The writer of the zip crate is opaque to verification; `zip_entries`
//! names what it holds, and the wrappers state how each call moves it.

use crate::errors::BatchError;
use vstd::prelude::*;
use vstd::utf8::encode_utf8;

verus! {

/// A zip writer over an in-memory buffer.  The writer's own type takes
/// bounds that verification does not know, so the whole struct is opaque;
/// `zip_entries` is its only window.
#[verifier::external_body]
pub struct ZipBuffer {
    writer: zip::ZipWriter<std::io::Cursor<Vec<u8>>>,
}

/// The members an in-memory zip writer holds so far: name and contents of
/// each, in the order they were started.
pub uninterp spec fn zip_entries(z: ZipBuffer) -> Seq<(Seq<char>, Seq<u8>)>;

/// A member the zip format accepts without the large-file options: its
/// name fits the format's 16-bit name-length field, and its contents stay
/// comfortably under the plain zip size bound, leaving room for the
/// deflate framing of incompressible data.
pub open spec fn member_fits(name: Seq<char>, data: Seq<u8>) -> bool {
    encode_utf8(name).len() <= 0xFFFF && data.len() <= 0xFF000000
}

/// The serialized form of a finished archive.  The writer is configured
/// with fixed options and a fixed timestamp, so the bytes are a function of
/// the members alone.
pub uninterp spec fn zip_archive_bytes(entries: Seq<(Seq<char>, Seq<u8>)>) -> Seq<u8>;

/// Relies on zip::ZipWriter::new: a writer over a fresh buffer holds no
/// members.
#[verifier::external_body]
fn zip_new() -> (z: ZipBuffer)
    ensures
        zip_entries(z) == Seq::<(Seq<char>, Seq<u8>)>::empty(),
{
    ZipBuffer { writer: zip::ZipWriter::new(std::io::Cursor::new(Vec::new())) }
}

/// Relies on zip::ZipWriter::start_file with default options (deflate, a
/// fixed timestamp): on success it appends a member with the given name,
/// stored verbatim, and no contents yet.  The writer rejects a member
/// whose name is already taken, so a fresh name is demanded; with that,
/// writing to the in-memory buffer cannot fail, so the call succeeds
/// whenever the name fits the format's name-length field and every earlier
/// member stayed within the format's bounds (its closing header is written
/// here).
#[verifier::external_body]
fn zip_start_file(z: &mut ZipBuffer, name: &String) -> (r: Result<(), String>)
    requires
        forall|k: int|
            0 <= k < zip_entries(*old(z)).len() ==> (#[trigger] zip_entries(*old(z))[k]).0
                != name@,
    ensures
        r is Ok ==> zip_entries(*final(z)) == zip_entries(*old(z)).push(
            (name@, Seq::<u8>::empty()),
        ),
        (encode_utf8(name@).len() <= 0xFFFF && forall|k: int|
            0 <= k < zip_entries(*old(z)).len() ==> member_fits(
                (#[trigger] zip_entries(*old(z))[k]).0,
                zip_entries(*old(z))[k].1,
            )) ==> r is Ok,
{
    z.writer.start_file(name.as_str(), zip::write::SimpleFileOptions::default()).map_err(
        |e| format!("{}", e),
    )
}

/// Relies on the std::io::Write impl of zip::ZipWriter (write_all): on
/// success the bytes are appended to the member started last.  Writing to
/// the in-memory buffer cannot fail, so the call succeeds whenever the
/// member stays under the plain zip size bound (the writer refuses more
/// without the large-file option).
#[verifier::external_body]
fn zip_write_all(z: &mut ZipBuffer, data: &Vec<u8>) -> (r: Result<(), String>)
    requires
        zip_entries(*old(z)).len() > 0,
    ensures
        r is Ok ==> zip_entries(*final(z)) == zip_entries(*old(z)).update(
            zip_entries(*old(z)).len() - 1,
            (
                zip_entries(*old(z)).last().0,
                zip_entries(*old(z)).last().1 + data@,
            ),
        ),
        (zip_entries(*old(z)).last().1.len() + data@.len() <= 0xFF000000) ==> r is Ok,
{
    std::io::Write::write_all(&mut z.writer, data.as_slice()).map_err(|e| format!("{}", e))
}

/// Relies on zip::ZipWriter::finish: it writes the central directory and
/// hands the buffer back; the bytes serialize exactly the members written.
/// Writing to the in-memory buffer cannot fail, so the call succeeds
/// whenever every member stayed within the format's bounds.
#[verifier::external_body]
fn zip_finish(z: ZipBuffer) -> (r: Result<Vec<u8>, String>)
    ensures
        r matches Ok(b) ==> b@ == zip_archive_bytes(zip_entries(z)),
        (forall|k: int|
            0 <= k < zip_entries(z).len() ==> member_fits(
                (#[trigger] zip_entries(z)[k]).0,
                zip_entries(z)[k].1,
            )) ==> r is Ok,
{
    match z.writer.finish() {
        Ok(c) => Ok(c.into_inner()),
        Err(e) => Err(format!("{}", e)),
    }
}

/// One member of the archive: the output's base name and its encoded bytes.
pub struct ArchiveMember {
    pub name: String,
    pub data: Vec<u8>,
}

/// The members as (name, contents) pairs.
pub open spec fn members_view(s: Seq<ArchiveMember>) -> Seq<(Seq<char>, Seq<u8>)> {
    s.map(|i: int, m: ArchiveMember| (m.name@, m.data@))
}

/// An archive under construction.  Members are streamed in one at a time,
/// so the inputs need not be resident together; `finish` serializes.
pub struct ArchiveBuilder {
    writer: ZipBuffer,
}

impl ArchiveBuilder {
    /// The members streamed in so far.
    pub closed spec fn members(self) -> Seq<(Seq<char>, Seq<u8>)> {
        zip_entries(self.writer)
    }

    pub fn new() -> (r: ArchiveBuilder)
        ensures
            r.members() == Seq::<(Seq<char>, Seq<u8>)>::empty(),
    {
        ArchiveBuilder { writer: zip_new() }
    }

    /// Appends one member; its name must not be taken yet, as the archive
    /// is indexed by member name.  On failure the whole archive is lost, as
    /// the archive is all-or-nothing.
    pub fn add_member(&mut self, name: &String, data: &Vec<u8>) -> (r: Result<(), BatchError>)
        requires
            forall|k: int|
                0 <= k < old(self).members().len() ==> (#[trigger] old(self).members()[k]).0
                    != name@,
        ensures
            r is Ok ==> final(self).members() == old(self).members().push((name@, data@)),
            r is Err ==> r matches Err(BatchError::Archive(_)),
            (member_fits(name@, data@) && forall|k: int|
                0 <= k < old(self).members().len() ==> member_fits(
                    (#[trigger] old(self).members()[k]).0,
                    old(self).members()[k].1,
                )) ==> r is Ok,
    {
        let ghost before = zip_entries(self.writer);
        proof {
            assert(before == old(self).members());
            assert forall|k: int| 0 <= k < before.len() implies (#[trigger] before[k]).0
                != name@ by {
                assert(old(self).members()[k].0 != name@);
            }
        }
        match zip_start_file(&mut self.writer, name) {
            Ok(()) => {},
            Err(e) => {
                return Err(BatchError::Archive(e));
            },
        }
        match zip_write_all(&mut self.writer, data) {
            Ok(()) => {
                proof {
                    assert(zip_entries(self.writer) =~= before.push((name@, data@)));
                }
                Ok(())
            },
            Err(e) => Err(BatchError::Archive(e)),
        }
    }

    /// Serializes the archive.
    pub fn finish(self) -> (r: Result<Vec<u8>, BatchError>)
        ensures
            r matches Ok(b) ==> b@ == zip_archive_bytes(self.members()),
            r is Err ==> r matches Err(BatchError::Archive(_)),
            (forall|k: int|
                0 <= k < self.members().len() ==> member_fits(
                    (#[trigger] self.members()[k]).0,
                    self.members()[k].1,
                )) ==> r is Ok,
    {
        proof {
            assert(self.members() == zip_entries(self.writer));
        }
        match zip_finish(self.writer) {
            Ok(b) => Ok(b),
            Err(e) => Err(BatchError::Archive(e)),
        }
    }
}

/// Whether `name` is the name of one of the first `k` members.
pub open spec fn name_taken(s: Seq<ArchiveMember>, k: int, name: Seq<char>) -> bool {
    exists|j: int| 0 <= j < k && (#[trigger] s[j]).name@ == name
}

/// The members that reach the archive: the archive is indexed by member
/// name, so of members sharing a base name only the first is kept.
pub open spec fn dedup_members(s: Seq<ArchiveMember>) -> Seq<ArchiveMember>
    decreases s.len(),
{
    if s.len() == 0 {
        Seq::<ArchiveMember>::empty()
    } else if name_taken(s, s.len() - 1, s.last().name@) {
        dedup_members(s.drop_last())
    } else {
        dedup_members(s.drop_last()).push(s.last())
    }
}

/// Every archived member is one of the given members, so in particular its
/// name was given.
proof fn lemma_dedup_names(s: Seq<ArchiveMember>, n: Seq<char>)
    requires
        forall|j: int| 0 <= j < s.len() ==> (#[trigger] s[j]).name@ != n,
    ensures
        forall|k: int| 0 <= k < dedup_members(s).len() ==> (#[trigger] dedup_members(s)[k]).name@
            != n,
    decreases s.len(),
{
    if s.len() == 0 {
    } else {
        assert(forall|j: int|
            0 <= j < s.drop_last().len() ==> (#[trigger] s.drop_last()[j]).name@ != n);
        lemma_dedup_names(s.drop_last(), n);
        assert(s.last().name@ != n);
        let d = dedup_members(s);
        let p = dedup_members(s.drop_last());
        assert forall|k: int| 0 <= k < d.len() implies (#[trigger] d[k]).name@ != n by {
            if name_taken(s, s.len() - 1, s.last().name@) {
                assert(d == p);
                assert(p[k].name@ != n);
            } else {
                assert(d == p.push(s.last()));
                if k < p.len() {
                    assert(d[k] == p[k]);
                    assert(p[k].name@ != n);
                } else {
                    assert(d[k] == s.last());
                }
            }
        }
    }
}

proof fn lemma_dedup_step(s: Seq<ArchiveMember>, i: int)
    requires
        0 <= i < s.len(),
    ensures
        !name_taken(s.take(i + 1), i, s[i].name@) ==> dedup_members(s.take(i + 1))
            == dedup_members(s.take(i)).push(s[i]),
        name_taken(s.take(i + 1), i, s[i].name@) ==> dedup_members(s.take(i + 1))
            == dedup_members(s.take(i)),
{
    assert(s.take(i + 1).drop_last() =~= s.take(i));
    assert(s.take(i + 1).last() == s[i]);
}

/// Members within the format's bounds stay within them through dedup.
proof fn lemma_dedup_fits(s: Seq<ArchiveMember>)
    requires
        forall|j: int| 0 <= j < s.len() ==> member_fits((#[trigger] s[j]).name@, s[j].data@),
    ensures
        forall|k: int|
            0 <= k < dedup_members(s).len() ==> member_fits(
                (#[trigger] dedup_members(s)[k]).name@,
                dedup_members(s)[k].data@,
            ),
    decreases s.len(),
{
    if s.len() == 0 {
    } else {
        assert(forall|j: int|
            0 <= j < s.drop_last().len() ==> member_fits(
                (#[trigger] s.drop_last()[j]).name@,
                s.drop_last()[j].data@,
            ));
        lemma_dedup_fits(s.drop_last());
        assert(member_fits(s.last().name@, s.last().data@));
        let d = dedup_members(s);
        let p = dedup_members(s.drop_last());
        assert forall|k: int| 0 <= k < d.len() implies member_fits(
            (#[trigger] d[k]).name@,
            d[k].data@,
        ) by {
            if name_taken(s, s.len() - 1, s.last().name@) {
                assert(d == p);
                assert(member_fits(p[k].name@, p[k].data@));
            } else {
                assert(d == p.push(s.last()));
                if k < p.len() {
                    assert(d[k] == p[k]);
                    assert(member_fits(p[k].name@, p[k].data@));
                } else {
                    assert(d[k] == s.last());
                }
            }
        }
    }
}

/// Which members dedup keeps is decided by names alone, so two member
/// lists that agree as (name, contents) pairs still agree after dedup.
pub proof fn lemma_dedup_view(a: Seq<ArchiveMember>, b: Seq<ArchiveMember>)
    requires
        members_view(a) == members_view(b),
    ensures
        members_view(dedup_members(a)) == members_view(dedup_members(b)),
    decreases a.len(),
{
    assert(members_view(a).len() == a.len());
    assert(members_view(b).len() == b.len());
    assert(a.len() == b.len());
    assert forall|j: int| 0 <= j < a.len() implies (#[trigger] a[j]).name@ == b[j].name@
        && a[j].data@ == b[j].data@ by {
        assert(members_view(a)[j] == (a[j].name@, a[j].data@));
        assert(members_view(b)[j] == (b[j].name@, b[j].data@));
    }
    if a.len() == 0 {
        assert(members_view(dedup_members(a)) =~= members_view(dedup_members(b)));
    } else {
        assert(members_view(a.drop_last()) =~= members_view(b.drop_last()));
        lemma_dedup_view(a.drop_last(), b.drop_last());
        if name_taken(a, a.len() - 1, a.last().name@) {
            let w = choose|j: int|
                0 <= j < a.len() - 1 && (#[trigger] a[j]).name@ == a.last().name@;
            assert(b[w].name@ == b.last().name@);
            assert(name_taken(b, b.len() - 1, b.last().name@));
        } else {
            assert(!name_taken(b, b.len() - 1, b.last().name@)) by {
                if name_taken(b, b.len() - 1, b.last().name@) {
                    let w = choose|j: int|
                        0 <= j < b.len() - 1 && (#[trigger] b[j]).name@ == b.last().name@;
                    assert(a[w].name@ == a.last().name@);
                }
            }
            let pa = dedup_members(a.drop_last());
            let pb = dedup_members(b.drop_last());
            assert(members_view(pa.push(a.last())) =~= members_view(pa).push(
                (a.last().name@, a.last().data@),
            ));
            assert(members_view(pb.push(b.last())) =~= members_view(pb).push(
                (b.last().name@, b.last().data@),
            ));
            assert(a.last().name@ == b.last().name@ && a.last().data@ == b.last().data@);
            assert(members_view(pa).push((a.last().name@, a.last().data@)) == members_view(
                pb,
            ).push((b.last().name@, b.last().data@)));
        }
    }
}

/// Packs the given outputs, in order, into one archive: the result's bytes
/// serialize exactly the given members under their own names, save that of
/// several members sharing one name only the first is kept.  Success is
/// owed whenever every member stays within the format's bounds: the writer
/// runs over an in-memory buffer, so nothing else can fail.
pub fn create_archive(members: &Vec<ArchiveMember>) -> (r: Result<Vec<u8>, BatchError>)
    ensures
        r matches Ok(b) ==> b@ == zip_archive_bytes(members_view(dedup_members(members@))),
        r is Err ==> r matches Err(BatchError::Archive(_)),
        (forall|k: int|
            0 <= k < members@.len() ==> member_fits(
                (#[trigger] members@[k]).name@,
                members@[k].data@,
            )) ==> r is Ok,
{
    let mut builder = ArchiveBuilder::new();
    let mut added: Vec<String> = Vec::new();
    let mut i: usize = 0;
    while i < members.len()
        invariant
            0 <= i <= members@.len(),
            builder.members() =~= members_view(dedup_members(members@.take(i as int))),
            added@.len() == i,
            forall|j: int| 0 <= j < i ==> (#[trigger] added@[j])@ == members@[j].name@,
        decreases members@.len() - i,
    {
        let m = &members[i];
        let mut taken = false;
        let mut j: usize = 0;
        while j < added.len()
            invariant
                0 <= j <= added@.len(),
                added@.len() == i,
                i < members@.len(),
                forall|t: int| 0 <= t < i ==> (#[trigger] added@[t])@ == members@[t].name@,
                taken <==> exists|t: int|
                    0 <= t < j && (#[trigger] added@[t])@ == members@[i as int].name@,
            decreases added@.len() - j,
        {
            if !taken {
                if added[j].eq(&members[i].name) {
                    taken = true;
                    proof {
                        assert(added@[j as int]@ == members@[i as int].name@);
                    }
                } else {
                    proof {
                        assert(!(added@[j as int]@ == members@[i as int].name@));
                    }
                }
            }
            j = j + 1;
        }
        proof {
            assert(forall|t: int|
                0 <= t < i ==> #[trigger] members@.take(i as int + 1)[t] == members@[t]);
            if taken {
                let t = choose|t: int|
                    0 <= t < i && (#[trigger] added@[t])@ == members@[i as int].name@;
                assert(members@.take(i as int + 1)[t].name@ == members@[i as int].name@);
            }
            if name_taken(members@.take(i as int + 1), i as int, members@[i as int].name@) {
                let t = choose|t: int|
                    0 <= t < i && (#[trigger] members@.take(i as int + 1)[t]).name@
                        == members@[i as int].name@;
                assert(added@[t]@ == members@[i as int].name@);
            }
            assert(taken <==> name_taken(
                members@.take(i as int + 1),
                i as int,
                members@[i as int].name@,
            ));
            lemma_dedup_step(members@, i as int);
        }
        if !taken {
            proof {
                let prefix = dedup_members(members@.take(i as int));
                assert(forall|t: int|
                    0 <= t < members@.take(i as int).len() ==> (#[trigger] members@.take(
                        i as int,
                    )[t]).name@ != members@[i as int].name@);
                lemma_dedup_names(members@.take(i as int), members@[i as int].name@);
                assert(forall|k: int|
                    0 <= k < builder.members().len() ==> (#[trigger] builder.members()[k]).0
                        != m.name@);
                assert((forall|k: int|
                    0 <= k < members@.len() ==> member_fits(
                        (#[trigger] members@[k]).name@,
                        members@[k].data@,
                    )) ==> member_fits(m.name@, m.data@) && (forall|k: int|
                    0 <= k < builder.members().len() ==> member_fits(
                        (#[trigger] builder.members()[k]).0,
                        builder.members()[k].1,
                    ))) by {
                    if forall|k: int|
                        0 <= k < members@.len() ==> member_fits(
                            (#[trigger] members@[k]).name@,
                            members@[k].data@,
                        ) {
                        assert(forall|t: int|
                            0 <= t < members@.take(i as int).len() ==> member_fits(
                                (#[trigger] members@.take(i as int)[t]).name@,
                                members@.take(i as int)[t].data@,
                            ));
                        lemma_dedup_fits(members@.take(i as int));
                        assert forall|k: int| 0 <= k < builder.members().len() implies member_fits(
                            (#[trigger] builder.members()[k]).0,
                            builder.members()[k].1,
                        ) by {
                            assert(builder.members()[k] == members_view(prefix)[k]);
                            assert(members_view(prefix)[k] == (prefix[k].name@, prefix[k].data@));
                            assert(member_fits(prefix[k].name@, prefix[k].data@));
                        }
                    }
                }
            }
            match builder.add_member(&m.name, &m.data) {
                Ok(()) => {},
                Err(e) => {
                    return Err(e);
                },
            }
            proof {
                assert(members_view(dedup_members(members@.take(i as int + 1)))
                    =~= members_view(dedup_members(members@.take(i as int))).push(
                    (members@[i as int].name@, members@[i as int].data@),
                ));
            }
        }
        added.push(m.name.clone());
        i = i + 1;
    }
    proof {
        assert(members@.take(members@.len() as int) =~= members@);
        assert((forall|k: int|
            0 <= k < members@.len() ==> member_fits(
                (#[trigger] members@[k]).name@,
                members@[k].data@,
            )) ==> (forall|k: int|
            0 <= k < builder.members().len() ==> member_fits(
                (#[trigger] builder.members()[k]).0,
                builder.members()[k].1,
            ))) by {
            if forall|k: int|
                0 <= k < members@.len() ==> member_fits(
                    (#[trigger] members@[k]).name@,
                    members@[k].data@,
                ) {
                lemma_dedup_fits(members@);
                let d = dedup_members(members@);
                assert forall|k: int| 0 <= k < builder.members().len() implies member_fits(
                    (#[trigger] builder.members()[k]).0,
                    builder.members()[k].1,
                ) by {
                    assert(builder.members()[k] == members_view(d)[k]);
                    assert(members_view(d)[k] == (d[k].name@, d[k].data@));
                    assert(member_fits(d[k].name@, d[k].data@));
                }
            }
        }
    }
    builder.finish()
}

} // verus!
