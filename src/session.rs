//! A display session: fixed square dimensions and the pacing settings, from
//! which each image becomes a frame and the schedule that sends it.
use vstd::prelude::*;
use crate::loader::{decode_1bit, decode_auto, decode_grayscale, expanded, png_decoded, PipelineError};
use crate::rotate::{lemma_square_rotation, rotate, rotated};
use crate::pack::row_count;
use crate::transport::{
    build_frame, frame_byte, frame_len, plan_spec, plan_transmission, Step, ROWS_BETWEEN_SLEEPS,
    SLEEP_TIME_MILLIS,
};

verus! {

/// Whether samples are inverted before they are sent.
pub const INVERT_IMAGE: bool = false;

/// The side of the display, in pixels.
pub const DISPLAY_SIDE: usize = 64;

/// What a session hands to the connection for one image: the frame, and the
/// steps that send it, whose writes name ranges of the frame.
pub struct Transmission {
    pub frame: Vec<u8>,
    pub steps: Vec<Step>,
}

/// The settings of a display session.
pub struct HelmetMcu {
    side: usize,
    invert: bool,
    rows_between_sleeps: u8,
    sleep_millis: u64,
}

impl HelmetMcu {
    /// The side of the square image, in pixels.
    pub closed spec fn side(&self) -> nat {
        self.side as nat
    }

    /// Whether samples are inverted.
    pub closed spec fn invert(&self) -> bool {
        self.invert
    }

    /// Row units between two pauses.
    pub closed spec fn every(&self) -> nat {
        self.rows_between_sleeps as nat
    }

    /// Length of a pause, in milliseconds.
    pub closed spec fn millis(&self) -> u64 {
        self.sleep_millis
    }

    /// The settings are usable: the image fits in memory and pauses come
    /// after at least one row.
    pub open spec fn wf(&self) -> bool {
        self.side() * self.side() <= usize::MAX && self.every() >= 1
    }

    /// The transmission owed for the sample buffer `data`, laid out as a
    /// square of this session's side.
    pub open spec fn transmission_of(&self, data: Seq<u8>, t: Transmission) -> bool {
        let n = self.side() as int;
        let samples = rotated(data, n);
        &&& t.frame@.len() == frame_len(samples.len())
        &&& forall|i: int|
            0 <= i < t.frame@.len() ==> t.frame@[i] as int == #[trigger] frame_byte(samples, self.invert(), i)
        &&& t.steps@ == plan_spec(row_count(samples.len()), self.every(), self.millis())
    }

    /// The session for the 64 by 64 display: no inversion, a pause of 17 ms
    /// after every second row.
    pub fn new() -> (r: Self)
        ensures
            r.wf(),
            r.side() == 64,
            r.invert() == INVERT_IMAGE,
            r.every() == ROWS_BETWEEN_SLEEPS,
            r.millis() == SLEEP_TIME_MILLIS,
    {
        assert(64 * 64 <= usize::MAX);
        HelmetMcu {
            side: DISPLAY_SIDE,
            invert: INVERT_IMAGE,
            rows_between_sleeps: ROWS_BETWEEN_SLEEPS,
            sleep_millis: SLEEP_TIME_MILLIS,
        }
    }

    /// A session with other settings.
    pub fn with_settings(side: usize, invert: bool, rows_between_sleeps: u8, sleep_millis: u64) -> (r: Self)
        requires
            side * side <= usize::MAX,
            rows_between_sleeps >= 1,
        ensures
            r.wf(),
            r.side() == side,
            r.invert() == invert,
            r.every() == rows_between_sleeps,
            r.millis() == sleep_millis,
    {
        HelmetMcu { side, invert, rows_between_sleeps, sleep_millis }
    }

    /// The transmission of a sample buffer: reordered into scan order, packed
    /// and framed, with its schedule. A buffer whose length is not the
    /// square of the side is refused before anything is built.
    pub fn send_rotated(&self, data: Vec<u8>) -> (r: Result<Transmission, PipelineError>)
        requires
            self.wf(),
        ensures
            data@.len() != self.side() * self.side() ==> r == Err::<Transmission, PipelineError>(
                PipelineError::SizeMismatch,
            ),
            data@.len() == self.side() * self.side() ==> (r matches Ok(t) && self.transmission_of(data@, t)),
    {
        let n = self.side;
        if data.len() != n * n {
            return Err(PipelineError::SizeMismatch);
        }
        let ghost src = data@;
        let samples = rotate(data, (n, n));
        proof {
            lemma_square_rotation(n as int, src, samples@);
        }
        let frame = build_frame(&samples, self.invert);
        let rows = samples.len() / 64;
        let steps = plan_transmission(rows, self.rows_between_sleeps, self.sleep_millis);
        Ok(Transmission { frame, steps })
    }

    /// The transmission of a grayscale image file.
    pub fn send_png(&self, bytes: &Vec<u8>) -> (r: Result<Transmission, PipelineError>)
        requires
            self.wf(),
        ensures
            match png_decoded(bytes@) {
                None => r == Err::<Transmission, PipelineError>(PipelineError::Decode),
                Some(d) => if d.len() == self.side() * self.side() {
                    r matches Ok(t) && self.transmission_of(d, t)
                } else {
                    r == Err::<Transmission, PipelineError>(PipelineError::SizeMismatch)
                },
            },
    {
        let data = decode_grayscale(bytes)?;
        self.send_rotated(data)
    }

    /// The transmission of an image file whose data packs eight pixels per
    /// byte.
    pub fn send_png_1bit(&self, bytes: &Vec<u8>) -> (r: Result<Transmission, PipelineError>)
        requires
            self.wf(),
        ensures
            match png_decoded(bytes@) {
                None => r == Err::<Transmission, PipelineError>(PipelineError::Decode),
                Some(d) => if d.len() * 8 <= usize::MAX && expanded(d).len() == self.side() * self.side() {
                    r matches Ok(t) && self.transmission_of(expanded(d), t)
                } else {
                    r == Err::<Transmission, PipelineError>(PipelineError::SizeMismatch)
                },
            },
    {
        let data = decode_1bit(bytes)?;
        self.send_rotated(data)
    }

    /// The transmission of an image file in either layout, told apart by the
    /// length of its data.
    pub fn send_png_g(&self, bytes: &Vec<u8>) -> (r: Result<Transmission, PipelineError>)
        requires
            self.wf(),
        ensures
            match png_decoded(bytes@) {
                None => r == Err::<Transmission, PipelineError>(PipelineError::Decode),
                Some(d) => if d.len() == (self.side() * self.side()) / 8 {
                    if expanded(d).len() == self.side() * self.side() {
                        r matches Ok(t) && self.transmission_of(expanded(d), t)
                    } else {
                        r == Err::<Transmission, PipelineError>(PipelineError::SizeMismatch)
                    }
                } else if d.len() == self.side() * self.side() {
                    r matches Ok(t) && self.transmission_of(d, t)
                } else {
                    r == Err::<Transmission, PipelineError>(PipelineError::SizeMismatch)
                },
            },
    {
        let data = decode_auto(bytes, (self.side, self.side))?;
        self.send_rotated(data)
    }

    /// The transmission of a rendered map image, a grayscale image file.
    pub fn send_map(&self, bytes: &Vec<u8>) -> (r: Result<Transmission, PipelineError>)
        requires
            self.wf(),
        ensures
            match png_decoded(bytes@) {
                None => r == Err::<Transmission, PipelineError>(PipelineError::Decode),
                Some(d) => if d.len() == self.side() * self.side() {
                    r matches Ok(t) && self.transmission_of(d, t)
                } else {
                    r == Err::<Transmission, PipelineError>(PipelineError::SizeMismatch)
                },
            },
    {
        self.send_png(bytes)
    }
}

} // verus!
