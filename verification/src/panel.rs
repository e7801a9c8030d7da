//! Driving the e-paper: what has to be sent to the controller for one update.
use crate::screen::Refresh;
use vstd::prelude::*;

verus! {

/// One thing to do with the controller.
#[derive(Debug, Clone, Copy, PartialEq, Eq, Structural)]
pub enum Step {
    /// Wake it from deep sleep.
    Wake,
    /// Load a waveform.
    Waveform(Refresh),
    /// Send the framebuffer.
    Update,
    /// Refresh the glass.
    Display,
    /// Put it to deep sleep.
    Sleep,
}

/// What the controller is doing.
#[derive(Debug, Clone, Copy, PartialEq, Eq, Structural)]
pub struct Panel {
    /// Deep sleep ignores commands until the controller is woken: updating a sleeping panel
    /// silently does nothing.
    pub asleep: bool,
    /// Which waveform is currently loaded, to skip redundant uploads.
    pub lut: Option<Refresh>,
}

impl Panel {
    pub fn new() -> (r: Self)
        ensures
            r == (Panel { asleep: false, lut: None }),
    {
        Panel { asleep: false, lut: None }
    }

    /// What one update takes. Waking loses the waveform.
    pub open spec fn steps(self, mode: Refresh) -> Seq<Step> {
        (if self.asleep {
            seq![Step::Wake]
        } else {
            Seq::empty()
        }) + (if self.asleep || self.lut != Some(mode) {
            seq![Step::Waveform(mode)]
        } else {
            Seq::empty()
        }) + seq![Step::Update, Step::Display, Step::Sleep]
    }

    /// Push a framebuffer and refresh, then put the controller back to sleep: what to do, in
    /// order.
    pub fn present(&mut self, mode: Refresh) -> (r: Vec<Step>)
        ensures
            r@ == old(self).steps(mode),
            *final(self) == (Panel { asleep: true, lut: Some(mode) }),
    {
        let mut out: Vec<Step> = Vec::new();
        if self.asleep {
            out.push(Step::Wake);
            self.asleep = false;
            self.lut = None;
        }
        let loaded: bool = match self.lut {
            Some(m) => m == mode,
            None => false,
        };
        if !loaded {
            out.push(Step::Waveform(mode));
            self.lut = Some(mode);
        }
        out.push(Step::Update);
        out.push(Step::Display);
        out.push(Step::Sleep);
        self.asleep = true;
        assert(out@ =~= old(self).steps(mode));
        out
    }
}

/// A sleeping controller is woken before anything else is sent to it, and every update ends
/// with it asleep.
pub proof fn a_sleeping_panel_is_woken_first(p: Panel, mode: Refresh)
    ensures
        p.asleep ==> p.steps(mode)[0] == Step::Wake && p.steps(mode)[1] == Step::Waveform(mode),
        p.steps(mode).last() == Step::Sleep,
{
}

/// What the glass shows is drawn with the waveform that was asked for: it is loaded before the
/// update unless it is loaded already, and the framebuffer is sent before the glass is refreshed.
pub proof fn an_update_has_its_waveform(p: Panel, mode: Refresh)
    ensures
        ({
            let steps = p.steps(mode);
            let n = steps.len();
            &&& steps.skip(n - 3) == seq![Step::Update, Step::Display, Step::Sleep]
            &&& !p.asleep && p.lut == Some(mode) ==> n == 3
            &&& !p.asleep && p.lut != Some(mode) ==> n == 4 && steps[0] == Step::Waveform(mode)
            &&& p.asleep ==> n == 5
        }),
{
    let steps = p.steps(mode);
    assert(steps.skip(steps.len() - 3) =~= seq![Step::Update, Step::Display, Step::Sleep]);
}

} // verus!
