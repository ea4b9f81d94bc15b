//! The batch orchestrator: one run of the pipeline over a folder's items.
//!
//! Per-item failures are recorded and skipped — a single bad file never
//! aborts the run.  A run aborts only before any per-item work (invalid
//! photo region, undecodable template, empty enumeration), when nothing at
//! all succeeded, or when the archive itself cannot be assembled.  Progress
//! is reported after every attempted item as the fraction `completed/total`,
//! modeled here as the pairs appended to a notification log.

use crate::archive::create_archive;
use crate::archive::dedup_members;
use crate::archive::members_view;
use crate::archive::zip_archive_bytes;
use crate::archive::ArchiveMember;
use crate::compose::caption_marked;
use crate::compose::composite_images_with_text;
use crate::compose::placement_x;
use crate::compose::placement_y;
use crate::errors::BatchError;
use crate::errors::ItemError;
use crate::files::file_stem_of;
use crate::files::stem_of;
use crate::geometry::Geometry;
use crate::numbering::extract_number_from_filename;
use crate::numbering::extracted_number;
use crate::raster::decode_image;
use crate::raster::decode_ok;
use crate::raster::decoded_of;
use crate::raster::encode_jpeg;
use crate::raster::image_height;
use crate::raster::image_width;
use crate::raster::jpeg_bytes_of;
use crate::raster::jpeg_ok;
use crate::raster::overlay_of;
use crate::raster::raster_height;
use crate::raster::raster_width;
use crate::raster::resized_of;
use crate::resize::fit_height;
use crate::resize::fit_width;
use crate::resize::resize_image;
use vstd::prelude::*;

verus! {

/// One discovered source photograph, loaded for processing.
pub struct SourceItem {
    /// Full path of the file, used in failure reports.
    pub path: String,
    /// Final path component: the file name with its extension.
    pub name: String,
    /// Raw bytes of the file.
    pub bytes: Vec<u8>,
}

/// The name an output keeps: the source's stem behind a fixed suffix.
pub open spec fn output_name_of(name: Seq<char>) -> Seq<char> {
    stem_of(name) + "_processed.jpg"@
}

pub fn output_name_for(name: &str) -> (r: String)
    ensures
        r@ == output_name_of(name@),
{
    let mut s = file_stem_of(name);
    s.append("_processed.jpg");
    s
}

/// The composite produced for one item at the given 1-based position: its
/// decoded raster scaled to fit the photo slot, drawn centered onto the
/// template, and, when a caption region is configured, the caption mark for
/// its sequence number.
pub open spec fn composed_raster(
    template: image::DynamicImage,
    photo_region: Geometry,
    caption_region: Option<Geometry>,
    name: Seq<char>,
    bytes: Seq<u8>,
    position: nat,
) -> image::DynamicImage {
    let src = decoded_of(bytes);
    let fw = fit_width(
        raster_width(src) as int,
        raster_height(src) as int,
        photo_region.width as int,
        photo_region.height as int,
    );
    let fh = fit_height(
        raster_width(src) as int,
        raster_height(src) as int,
        photo_region.width as int,
        photo_region.height as int,
    );
    let base = overlay_of(
        template,
        resized_of(src, fw as u32, fh as u32),
        placement_x(photo_region, fw),
        placement_y(photo_region, fh),
    );
    match caption_region {
        Option::None => base,
        Option::Some(c) => caption_marked(
            base,
            c,
            extracted_number(stem_of(name), position).len() as int,
        ),
    }
}

/// Whether one item goes through the whole per-item pipeline: its bytes
/// decode to a raster with pixels, and the JPEG encoder accepts the
/// composite built from it.
pub open spec fn item_succeeds(
    template: image::DynamicImage,
    photo_region: Geometry,
    caption_region: Option<Geometry>,
    it: SourceItem,
    position: nat,
) -> bool {
    &&& decode_ok(it.bytes@)
    &&& raster_width(decoded_of(it.bytes@)) > 0
    &&& raster_height(decoded_of(it.bytes@)) > 0
    &&& jpeg_ok(
        composed_raster(template, photo_region, caption_region, it.name@, it.bytes@, position),
    )
}

/// The archive members a run over these items produces, in attempt order:
/// one member per item whose pipeline succeeds, named after the item and
/// holding the JPEG bytes of its composite.  `position` is the 1-based
/// position of the first item.
pub open spec fn expected_members(
    template: image::DynamicImage,
    photo_region: Geometry,
    caption_region: Option<Geometry>,
    items: Seq<SourceItem>,
    position: nat,
) -> Seq<(Seq<char>, Seq<u8>)>
    decreases items.len(),
{
    if items.len() == 0 {
        Seq::<(Seq<char>, Seq<u8>)>::empty()
    } else {
        let prefix = expected_members(
            template,
            photo_region,
            caption_region,
            items.drop_last(),
            position,
        );
        let last_pos = (position + items.len() - 1) as nat;
        if item_succeeds(template, photo_region, caption_region, items.last(), last_pos) {
            prefix + seq![
                (
                    output_name_of(items.last().name@),
                    jpeg_bytes_of(
                        composed_raster(
                            template,
                            photo_region,
                            caption_region,
                            items.last().name@,
                            items.last().bytes@,
                            last_pos,
                        ),
                    ),
                ),
            ]
        } else {
            prefix
        }
    }
}

/// The failure record of a run: the path of every item whose pipeline
/// fails, in attempt order.
pub open spec fn expected_failures(
    template: image::DynamicImage,
    photo_region: Geometry,
    caption_region: Option<Geometry>,
    items: Seq<SourceItem>,
    position: nat,
) -> Seq<Seq<char>>
    decreases items.len(),
{
    if items.len() == 0 {
        Seq::<Seq<char>>::empty()
    } else {
        let prefix = expected_failures(
            template,
            photo_region,
            caption_region,
            items.drop_last(),
            position,
        );
        let last_pos = (position + items.len() - 1) as nat;
        if item_succeeds(template, photo_region, caption_region, items.last(), last_pos) {
            prefix
        } else {
            prefix + seq![items.last().path@]
        }
    }
}

/// The paths of a failure record.
pub open spec fn failure_paths(s: Seq<(String, String)>) -> Seq<Seq<char>> {
    s.map(|i: int, f: (String, String)| f.0@)
}

/// The notifications a run emits while attempting `n` of `total` items:
/// after the k-th item the fraction `k/total`, as a numerator and
/// denominator.
pub open spec fn progress_events(n: int, total: int) -> Seq<(usize, usize)> {
    Seq::new(n as nat, |i: int| (((i + 1) as usize, total as usize)))
}

/// Ephemeral state of one run while its items are attempted.
pub struct BatchRun {
    /// How many items the run attempts in all.
    pub total: usize,
    /// How many items have been attempted so far.
    pub completed: usize,
    /// The outputs produced so far, in attempt order.
    pub outputs: Vec<ArchiveMember>,
    /// The failures recorded so far: source path and reason, in attempt
    /// order.
    pub failures: Vec<(String, String)>,
}

impl BatchRun {
    /// Every attempted item is either an output or a recorded failure, and
    /// no more items were attempted than the run holds.
    pub open spec fn wf(self) -> bool {
        self.completed == self.outputs@.len() + self.failures@.len() && self.completed
            <= self.total
    }

    pub fn new(total: usize) -> (r: BatchRun)
        ensures
            r.wf(),
            r.total == total,
            r.completed == 0,
            r.outputs@ =~= Seq::<ArchiveMember>::empty(),
            r.failures@ =~= Seq::<(String, String)>::empty(),
    {
        BatchRun { total, completed: 0, outputs: Vec::new(), failures: Vec::new() }
    }

    pub fn record_success(&mut self, name: String, data: Vec<u8>)
        requires
            old(self).wf(),
            old(self).completed < old(self).total,
        ensures
            final(self).wf(),
            final(self).total == old(self).total,
            final(self).completed == old(self).completed + 1,
            final(self).outputs@ == old(self).outputs@.push(
                (ArchiveMember { name: name, data: data }),
            ),
            final(self).failures@ == old(self).failures@,
    {
        self.outputs.push(ArchiveMember { name, data });
        self.completed = self.completed + 1;
    }

    pub fn record_failure(&mut self, path: String, reason: String)
        requires
            old(self).wf(),
            old(self).completed < old(self).total,
        ensures
            final(self).wf(),
            final(self).total == old(self).total,
            final(self).completed == old(self).completed + 1,
            final(self).outputs@ == old(self).outputs@,
            final(self).failures@ == old(self).failures@.push((path, reason)),
    {
        self.failures.push((path, reason));
        self.completed = self.completed + 1;
    }

    /// The fraction to notify, as `completed` out of `total`.
    pub fn progress(&self) -> (r: (usize, usize))
        ensures
            r == (self.completed, self.total),
    {
        (self.completed, self.total)
    }
}

/// Decides the fate of a run once every item was attempted: a run in which
/// nothing at all succeeded fails, and only such a run; otherwise the
/// outputs move on to the archiver, in order, with the failure record.
pub fn resolve_processing(run: BatchRun) -> (r: Result<
    (Vec<ArchiveMember>, Vec<(String, String)>),
    BatchError,
>)
    ensures
        run.outputs@.len() == 0 <==> r matches Err(BatchError::AllItemsFailed),
        r is Err ==> r matches Err(BatchError::AllItemsFailed),
        r matches Ok(o) ==> o.0@ == run.outputs@ && o.1@ == run.failures@ && o.0@.len() >= 1,
{
    if run.outputs.len() == 0 {
        Err(BatchError::AllItemsFailed)
    } else {
        Ok((run.outputs, run.failures))
    }
}

/// One iteration of the pipeline: decode the source, scale it to fit the
/// photo slot, composite it onto a fresh copy of the template, mark the
/// caption slot with the sequence number, and encode the result as JPEG.
/// It succeeds exactly when the item's pipeline goes through — decoding
/// and encoding read only their inputs, so that is a function of the
/// arguments — and then returns the JPEG bytes of the item's composite.
/// A source that does not decode fails with the decode error; an encoding
/// failure is reported as such and can only follow a successful decode.
pub fn process_source_image(
    template: &image::DynamicImage,
    photo_region: &Geometry,
    caption_region: &Option<Geometry>,
    item: &SourceItem,
    position: u64,
) -> (r: Result<Vec<u8>, ItemError>)
    requires
        photo_region.is_valid(),
    ensures
        r is Ok <==> item_succeeds(
            *template,
            *photo_region,
            *caption_region,
            *item,
            position as nat,
        ),
        r matches Ok(b) ==> b@ == jpeg_bytes_of(
            composed_raster(
                *template,
                *photo_region,
                *caption_region,
                item.name@,
                item.bytes@,
                position as nat,
            ),
        ),
        !decode_ok(item.bytes@) ==> r matches Err(ItemError::Decode(_)),
        r matches Err(ItemError::Encode(_)) ==> decode_ok(item.bytes@),
{
    let source = match decode_image(&item.bytes) {
        Ok(s) => s,
        Err(e) => {
            return Err(ItemError::Decode(e));
        },
    };
    let source_width = image_width(&source);
    let source_height = image_height(&source);
    if source_width == 0 || source_height == 0 {
        return Err(ItemError::Decode("image has no pixels".to_owned()));
    }
    let resized = resize_image(&source, photo_region.width, photo_region.height, true);
    let stem = file_stem_of(item.name.as_str());
    let number = extract_number_from_filename(stem.as_str(), position);
    let composed = composite_images_with_text(
        template,
        &resized,
        photo_region,
        caption_region,
        number.as_str(),
    );
    proof {
        assert(composed == composed_raster(
            *template,
            *photo_region,
            *caption_region,
            item.name@,
            item.bytes@,
            position as nat,
        ));
    }
    match encode_jpeg(&composed) {
        Ok(b) => Ok(b),
        Err(e) => Err(ItemError::Encode(e)),
    }
}

/// What a successful run hands back.
pub struct GenerateOutcome {
    /// The serialized zip archive, the run's single deliverable.
    pub archive: Vec<u8>,
    /// The outputs that were archived: base name and JPEG bytes of each.
    pub outputs: Vec<ArchiveMember>,
    /// The items that failed: source path and reason, in attempt order.
    pub failures: Vec<(String, String)>,
}

/// One full generation run over already-loaded items.
///
/// The run aborts up front — with nothing attempted and no notification
/// emitted — exactly when the photo region is invalid, the template raster
/// does not decode, or the enumeration is empty.  Otherwise every item is
/// attempted in the order given, with its 1-based position as the sequence
/// fallback, and one notification per item.  The outputs are exactly the
/// expected members — one per item whose pipeline goes through, named after
/// it, holding its composite's JPEG bytes, in attempt order — the failures
/// name exactly the other items' paths, and the run fails as
/// all-items-failed precisely when no item's pipeline goes through.  On
/// success the archive serializes exactly the produced outputs (of outputs
/// sharing one base name, the first).
pub fn generate_images_with_template(
    template_bytes: &Vec<u8>,
    photo_region: &Geometry,
    caption_region: &Option<Geometry>,
    items: &Vec<SourceItem>,
    progress: &mut Vec<(usize, usize)>,
) -> (r: Result<GenerateOutcome, BatchError>)
    ensures
        !photo_region.is_valid() <==> r matches Err(BatchError::Configuration),
        (photo_region.is_valid() && !decode_ok(template_bytes@)) <==> r matches Err(
            BatchError::Template(_),
        ),
        (photo_region.is_valid() && decode_ok(template_bytes@) && items@.len() == 0) <==> r matches
            Err(BatchError::NoInput),
        (photo_region.is_valid() && decode_ok(template_bytes@) && items@.len() > 0
            && expected_members(
            decoded_of(template_bytes@),
            *photo_region,
            *caption_region,
            items@,
            1,
        ).len() == 0) <==> r matches Err(BatchError::AllItemsFailed),
        (r matches Err(BatchError::Configuration) || r matches Err(BatchError::Template(_))
            || r matches Err(BatchError::NoInput)) ==> final(progress)@ == old(progress)@,
        (r is Ok || r matches Err(BatchError::AllItemsFailed) || r matches Err(
            BatchError::Archive(_),
        )) ==> final(progress)@ == old(progress)@ + progress_events(
            items@.len() as int,
            items@.len() as int,
        ),
        r matches Ok(o) ==> members_view(o.outputs@) == expected_members(
            decoded_of(template_bytes@),
            *photo_region,
            *caption_region,
            items@,
            1,
        ),
        r matches Ok(o) ==> failure_paths(o.failures@) == expected_failures(
            decoded_of(template_bytes@),
            *photo_region,
            *caption_region,
            items@,
            1,
        ),
        r matches Ok(o) ==> o.outputs@.len() >= 1 && o.outputs@.len() + o.failures@.len()
            == items@.len(),
        r matches Ok(o) ==> o.archive@ == zip_archive_bytes(members_view(dedup_members(o.outputs@))),
{
    if !photo_region.validate() {
        return Err(BatchError::Configuration);
    }
    let template = match decode_image(template_bytes) {
        Ok(t) => t,
        Err(e) => {
            return Err(BatchError::Template(e));
        },
    };
    let ghost tmpl = decoded_of(template_bytes@);
    let ghost pr = *photo_region;
    let ghost cr = *caption_region;
    let total = items.len();
    if total == 0 {
        return Err(BatchError::NoInput);
    }
    let mut run = BatchRun::new(total);
    let mut idx: usize = 0;
    while idx < total
        invariant
            run.wf(),
            run.total == total,
            run.completed == idx,
            0 <= idx <= total,
            total == items@.len(),
            photo_region.is_valid(),
            template == tmpl,
            tmpl == decoded_of(template_bytes@),
            pr == *photo_region,
            cr == *caption_region,
            progress@ == old(progress)@ + progress_events(idx as int, total as int),
            members_view(run.outputs@) == expected_members(
                tmpl,
                pr,
                cr,
                items@.take(idx as int),
                1,
            ),
            failure_paths(run.failures@) == expected_failures(
                tmpl,
                pr,
                cr,
                items@.take(idx as int),
                1,
            ),
        decreases total - idx,
    {
        let item = &items[idx];
        let ghost run_before = run;
        let ghost t1 = items@.take(idx as int + 1);
        proof {
            assert(t1.drop_last() =~= items@.take(idx as int));
            assert(t1.last() == items@[idx as int]);
        }
        match process_source_image(&template, photo_region, caption_region, item, (idx as u64) + 1)
        {
            Ok(data) => {
                let name = output_name_for(item.name.as_str());
                let ghost name0 = name@;
                let ghost data0 = data@;
                run.record_success(name, data);
                proof {
                    assert(item_succeeds(tmpl, pr, cr, items@[idx as int], (idx + 1) as nat));
                    assert(members_view(run.outputs@) =~= members_view(run_before.outputs@).push(
                        (name0, data0),
                    ));
                    assert(expected_members(tmpl, pr, cr, t1, 1) == expected_members(
                        tmpl,
                        pr,
                        cr,
                        items@.take(idx as int),
                        1,
                    ) + seq![(name0, data0)]);
                    assert(members_view(run.outputs@) =~= expected_members(tmpl, pr, cr, t1, 1));
                    assert(failure_paths(run.failures@) == expected_failures(tmpl, pr, cr, t1, 1));
                }
            },
            Err(e) => {
                let path = item.path.clone();
                let ghost path0 = path@;
                run.record_failure(path, e.reason());
                proof {
                    assert(!item_succeeds(tmpl, pr, cr, items@[idx as int], (idx + 1) as nat));
                    assert(failure_paths(run.failures@) =~= failure_paths(
                        run_before.failures@,
                    ).push(path0));
                    assert(expected_failures(tmpl, pr, cr, t1, 1) == expected_failures(
                        tmpl,
                        pr,
                        cr,
                        items@.take(idx as int),
                        1,
                    ) + seq![path0]);
                    assert(failure_paths(run.failures@) =~= expected_failures(tmpl, pr, cr, t1, 1));
                    assert(members_view(run.outputs@) == expected_members(tmpl, pr, cr, t1, 1));
                }
            },
        }
        progress.push((idx + 1, total));
        proof {
            let ghost ev_old = progress_events(idx as int, total as int);
            let ghost ev_new = progress_events(idx as int + 1, total as int);
            assert(ev_new =~= ev_old.push(((idx + 1) as usize, total)));
            assert(progress@ =~= old(progress)@ + ev_new);
        }
        idx = idx + 1;
    }
    proof {
        assert(items@.take(total as int) =~= items@);
    }
    let resolved = match resolve_processing(run) {
        Ok(p) => p,
        Err(e) => {
            return Err(e);
        },
    };
    let archive = match create_archive(&resolved.0) {
        Ok(b) => b,
        Err(e) => {
            return Err(e);
        },
    };
    Ok(GenerateOutcome { archive, outputs: resolved.0, failures: resolved.1 })
}

/// Idempotence of the deliverable: the archive's bytes are a function of
/// the archived members alone — the writer carries no timestamp or other
/// run-dependent state — so two runs whose outputs carry the same names and
/// bytes, as two runs over the same template and items do whenever the same
/// items go through, produce bit-identical archives, and in particular the
/// same member names and member count.
pub proof fn lemma_generate_idempotent(
    expected: Seq<(Seq<char>, Seq<u8>)>,
    first: Seq<ArchiveMember>,
    second: Seq<ArchiveMember>,
)
    requires
        members_view(first) == expected,
        members_view(second) == expected,
    ensures
        zip_archive_bytes(members_view(dedup_members(first))) == zip_archive_bytes(
            members_view(dedup_members(second)),
        ),
{
    crate::archive::lemma_dedup_view(first, second);
}

} // verus!
