//! Decode scheduling: which image to decode next and at what size, and what
//! is reported back. Slides have a queue of their own, so a slideshow never
//! waits behind queued thumbnails.

use std::collections::VecDeque;

use vstd::prelude::*;

use crate::order::FileInfo;
use crate::path::FilePath;
use crate::scan::{animated_path, is_animated_ext};

verus! {

/// Platform decoder. `max_px` caps the long edge; the orientation that the
/// file asks for must be applied.
pub trait ImageDecoder {
    type Image;

    fn decode(&self, path: &FilePath, max_px: i32) -> Option<Self::Image>;
}

/// What the engine reports.
pub enum Event<I> {
    /// Files inserted into the sorted list. Each entry is the index the file
    /// was inserted at (indices are valid when applied in order) plus the
    /// file.
    FilesInserted(Vec<(usize, FileInfo)>),
    /// Files that vanished from the disk.
    FilesRemoved(Vec<FilePath>),
    /// A file whose contents changed on disk.
    FileChanged(FileInfo),
    ScanDone { total: usize },
    ThumbReady { path: FilePath, image: I },
    SlideReady { path: FilePath, image: I },
    /// An animated slide: its frames, each with its time on screen in
    /// microseconds.
    SlideFramesReady { path: FilePath, frames: Vec<(I, u64)> },
    DecodeFailed { path: FilePath },
}

/// One image to decode.
pub enum Job {
    Thumb(FilePath),
    Slide(FilePath),
}

/// The image that a job is for.
pub open spec fn job_path(job: Job) -> FilePath {
    match job {
        Job::Thumb(path) => path,
        Job::Slide(path) => path,
    }
}

/// What is reported of a job, given what the decoder made of it.
pub open spec fn job_event<I>(job: Job, image: Option<I>) -> Event<I> {
    match (image, job) {
        (Some(image), Job::Thumb(path)) => Event::ThumbReady { path, image },
        (Some(image), Job::Slide(path)) => Event::SlideReady { path, image },
        (None, _) => Event::DecodeFailed { path: job_path(job) },
    }
}

/// The decode and scan queues.
pub struct Engine<I> {
    thumb_jobs: VecDeque<FilePath>,
    slide_jobs: VecDeque<FilePath>,
    events: VecDeque<Event<I>>,
    max_thumb_px: i32,
    max_slide_px: i32,
}

/// Whether a job is tried as frames first: a slide that may be animated is. A
/// slide without frames is decoded as one image.
pub fn wants_frames(job: &Job) -> (frames: bool)
    ensures
        frames == (match *job {
            Job::Thumb(_) => false,
            Job::Slide(path) => animated_path(path@),
        }),
{
    match job {
        Job::Thumb(_) => false,
        Job::Slide(path) => is_animated_ext(path),
    }
}

/// What a decoder made of a job.
pub fn report<I>(job: Job, image: Option<I>) -> (event: Event<I>)
    ensures
        event == job_event(job, image),
{
    match image {
        Some(image) => match job {
            Job::Thumb(path) => Event::ThumbReady { path, image },
            Job::Slide(path) => Event::SlideReady { path, image },
        },
        None => match job {
            Job::Thumb(path) => Event::DecodeFailed { path },
            Job::Slide(path) => Event::DecodeFailed { path },
        },
    }
}

/// Whether the preview embedded in a file is large enough for a thumbnail:
/// at least half of the size asked for. No preview is large enough for a
/// negative size.
pub fn preview_suffices(width: usize, height: usize, max_px: i32) -> (enough: bool)
    ensures
        enough == (max_px >= 0 && 2 * (if width > height {
            width as int
        } else {
            height as int
        }) >= max_px),
{
    let long_edge = if width > height { width } else { height };
    max_px >= 0 && long_edge as u128 * 2 >= max_px as u128
}

impl<I> Engine<I> {
    /// The thumbnails to decode, in order.
    pub closed spec fn thumbs(self) -> Seq<FilePath> {
        self.thumb_jobs@
    }

    /// The slides to decode, in order.
    pub closed spec fn slides(self) -> Seq<FilePath> {
        self.slide_jobs@
    }

    /// The events to deliver, in order.
    pub closed spec fn events(self) -> Seq<Event<I>> {
        self.events@
    }

    /// The long edge that a thumbnail gets at most.
    pub closed spec fn thumb_px(self) -> i32 {
        self.max_thumb_px
    }

    /// The long edge that a slide gets at most.
    pub closed spec fn slide_px(self) -> i32 {
        self.max_slide_px
    }

    /// The sizes are as they were.
    pub open spec fn same_sizes(self, before: Engine<I>) -> bool {
        self.thumb_px() == before.thumb_px() && self.slide_px() == before.slide_px()
    }

    pub fn start(max_thumb_px: i32, max_slide_px: i32) -> (engine: Self)
        ensures
            engine.thumbs() == Seq::<FilePath>::empty(),
            engine.slides() == Seq::<FilePath>::empty(),
            engine.events() == Seq::<Event<I>>::empty(),
            engine.thumb_px() == max_thumb_px,
            engine.slide_px() == max_slide_px,
    {
        Engine {
            thumb_jobs: VecDeque::new(),
            slide_jobs: VecDeque::new(),
            events: VecDeque::new(),
            max_thumb_px,
            max_slide_px,
        }
    }

    pub fn request_thumb(&mut self, path: FilePath)
        ensures
            final(self).thumbs() == old(self).thumbs().push(path),
            final(self).slides() == old(self).slides(),
            final(self).events() == old(self).events(),
            final(self).same_sizes(*old(self)),
    {
        self.thumb_jobs.push_back(path);
    }

    pub fn request_slide(&mut self, path: FilePath)
        ensures
            final(self).thumbs() == old(self).thumbs(),
            final(self).slides() == old(self).slides().push(path),
            final(self).events() == old(self).events(),
            final(self).same_sizes(*old(self)),
    {
        self.slide_jobs.push_back(path);
    }

    pub fn max_thumb_px(&self) -> (px: i32)
        ensures
            px == self.thumb_px(),
    {
        self.max_thumb_px
    }

    /// The next job for the thumbnail workers.
    pub fn next_thumb(&mut self) -> (job: Option<Job>)
        ensures
            final(self).slides() == old(self).slides(),
            final(self).events() == old(self).events(),
            final(self).same_sizes(*old(self)),
            match job {
                Some(j) => old(self).thumbs().len() > 0 && j == Job::Thumb(old(self).thumbs()[0])
                    && final(self).thumbs() == old(self).thumbs().skip(1),
                None => old(self).thumbs().len() == 0 && final(self).thumbs() == old(
                    self,
                ).thumbs(),
            },
    {
        match self.thumb_jobs.pop_front() {
            Some(path) => {
                assert(self.thumb_jobs@ =~= old(self).thumbs().skip(1));
                Some(Job::Thumb(path))
            },
            None => None,
        }
    }

    /// The next job for the slide worker.
    pub fn next_slide(&mut self) -> (job: Option<Job>)
        ensures
            final(self).thumbs() == old(self).thumbs(),
            final(self).events() == old(self).events(),
            final(self).same_sizes(*old(self)),
            match job {
                Some(j) => old(self).slides().len() > 0 && j == Job::Slide(old(self).slides()[0])
                    && final(self).slides() == old(self).slides().skip(1),
                None => old(self).slides().len() == 0 && final(self).slides() == old(
                    self,
                ).slides(),
            },
    {
        match self.slide_jobs.pop_front() {
            Some(path) => {
                assert(self.slide_jobs@ =~= old(self).slides().skip(1));
                Some(Job::Slide(path))
            },
            None => None,
        }
    }

    /// The size that a job is decoded at.
    pub fn job_px(&self, job: &Job) -> (px: i32)
        ensures
            px == (match *job {
                Job::Thumb(_) => self.thumb_px(),
                Job::Slide(_) => self.slide_px(),
            }),
    {
        match job {
            Job::Thumb(_) => self.max_thumb_px,
            Job::Slide(_) => self.max_slide_px,
        }
    }

    /// Queue an event for delivery.
    pub fn post(&mut self, event: Event<I>)
        ensures
            final(self).thumbs() == old(self).thumbs(),
            final(self).slides() == old(self).slides(),
            final(self).events() == old(self).events().push(event),
            final(self).same_sizes(*old(self)),
    {
        self.events.push_back(event);
    }

    /// The next event to deliver.
    pub fn next_event(&mut self) -> (event: Option<Event<I>>)
        ensures
            final(self).thumbs() == old(self).thumbs(),
            final(self).slides() == old(self).slides(),
            final(self).same_sizes(*old(self)),
            match event {
                Some(e) => old(self).events().len() > 0 && e == old(self).events()[0]
                    && final(self).events() == old(self).events().skip(1),
                None => old(self).events().len() == 0 && final(self).events() == old(
                    self,
                ).events(),
            },
    {
        match self.events.pop_front() {
            Some(event) => {
                assert(self.events@ =~= old(self).events().skip(1));
                Some(event)
            },
            None => None,
        }
    }

    /// Decode one job and report it. The decoder gets the job's image and its
    /// size; what it makes of them is up to it.
    pub fn decode_job<D: ImageDecoder<Image = I>>(&self, decoder: &D, job: Job) -> (event: Event<I>)
        ensures
            exists|image: Option<I>|
                call_ensures(
                    D::decode,
                    (
                        decoder,
                        &job_path(job),
                        match job {
                            Job::Thumb(_) => self.thumb_px(),
                            Job::Slide(_) => self.slide_px(),
                        },
                    ),
                    image,
                ) && event == #[trigger] job_event(job, image),
    {
        let px = self.job_px(&job);
        let image = match &job {
            Job::Thumb(path) => decoder.decode(path, px),
            Job::Slide(path) => decoder.decode(path, px),
        };
        report(job, image)
    }
}

/// What is reported of a job is about its image: a thumbnail of a thumbnail
/// job, a slide of a slide job, or a failure.
pub proof fn reports_are_about_the_job<I>(path: FilePath, image: I)
    ensures
        job_event(Job::Thumb(path), Some(image)) == (Event::ThumbReady { path, image }),
        job_event(Job::Slide(path), Some(image)) == (Event::SlideReady { path, image }),
        job_event::<I>(Job::Thumb(path), None) == (Event::<I>::DecodeFailed { path }),
        job_event::<I>(Job::Slide(path), None) == (Event::<I>::DecodeFailed { path }),
{
}

} // verus!
