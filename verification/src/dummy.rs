use vstd::prelude::*;

use crate::context::{EncodationType, EncodingContext};

verus! {

/// A self-contained host for exercising the encoder: the input sits in a
/// vector, the output sink collects codewords, and the symbol capacity is
/// a fixed number of codewords.
pub struct DummyLogic {
    /// The unconsumed input characters; the front is consumed first.
    pub data: Vec<u8>,
    /// The characters consumed so far, in consumption order.
    pub consumed: Vec<u8>,
    /// The codewords emitted so far.
    pub codewords: Vec<u8>,
    /// The total number of codewords the symbol can hold.
    pub symbol_size: usize,
    /// How many times the look-ahead query answers "keep going" before it
    /// requests a mode switch; a negative value means it never does.
    pub switch_countdown: i64,
    /// The active encodation scheme.
    pub mode: EncodationType,
}

impl DummyLogic {
    /// A host holding `data` as input, `symbol_size` codewords of capacity,
    /// and a look-ahead that requests a switch after `switch_countdown`
    /// queries (never, if negative).
    pub fn new(data: Vec<u8>, symbol_size: usize, switch_countdown: i64) -> (r: DummyLogic)
        ensures
            r.data@ == data@,
            r.consumed@ == Seq::<u8>::empty(),
            r.codewords@ == Seq::<u8>::empty(),
            r.symbol_size == symbol_size,
            r.switch_countdown == switch_countdown,
            r.mode == EncodationType::Edifact,
    {
        DummyLogic {
            data,
            consumed: Vec::new(),
            codewords: Vec::new(),
            symbol_size,
            switch_countdown,
            mode: EncodationType::Edifact,
        }
    }
}

impl EncodingContext for DummyLogic {
    open spec fn input(&self) -> Seq<u8> {
        self.data@
    }

    open spec fn taken(&self) -> Seq<u8> {
        self.consumed@
    }

    open spec fn output(&self) -> Seq<u8> {
        self.codewords@
    }

    open spec fn mode(&self) -> EncodationType {
        self.mode
    }

    open spec fn space_left(&self, extra: nat) -> Option<nat> {
        if self.codewords@.len() + extra <= self.symbol_size {
            Some((self.symbol_size - self.codewords@.len() - extra) as nat)
        } else {
            None
        }
    }

    fn eat(&mut self) -> (r: Option<u8>) {
        if self.data.len() == 0 {
            None
        } else {
            let ch: u8 = self.data.remove(0);
            self.consumed.push(ch);
            proof {
                assert(self.data@ =~= old(self).data@.skip(1));
            }
            Some(ch)
        }
    }

    fn characters_left(&self) -> (r: usize) {
        self.data.len()
    }

    fn has_more_characters(&self) -> (r: bool) {
        self.data.len() > 0
    }

    fn rest(&self) -> (r: &[u8]) {
        self.data.as_slice()
    }

    fn backup(&mut self, steps: usize) {
        let ghost c0 = self.consumed@;
        let ghost d0 = self.data@;
        let mut k: usize = 0;
        while k < steps
            invariant
                k <= steps,
                steps <= c0.len(),
                self.consumed@ == c0.take(c0.len() - k),
                self.data@ == c0.skip(c0.len() - k) + d0,
                self.codewords@ == old(self).codewords@,
                self.symbol_size == old(self).symbol_size,
                self.mode == old(self).mode,
            decreases steps - k,
        {
            let v: u8 = self.consumed.pop().unwrap();
            self.data.insert(0, v);
            proof {
                assert(self.consumed@ =~= c0.take(c0.len() - (k + 1)));
                assert(self.data@ =~= c0.skip(c0.len() - (k + 1)) + d0);
            }
            k = k + 1;
        }
        proof {
            assert(self.consumed@ =~= c0.take(c0.len() - steps));
            assert(self.data@ =~= c0.skip(c0.len() - steps) + d0);
        }
    }

    fn push(&mut self, cw: u8) {
        self.codewords.push(cw);
    }

    fn symbol_size_left(&mut self, extra: usize) -> (r: Option<usize>) {
        if self.codewords.len() <= self.symbol_size
            && extra <= self.symbol_size - self.codewords.len() {
            Some(self.symbol_size - self.codewords.len() - extra)
        } else {
            None
        }
    }

    fn set_mode(&mut self, mode: EncodationType) {
        self.mode = mode;
    }

    fn maybe_switch_mode(&mut self) -> (r: bool) {
        if self.switch_countdown < 0 {
            false
        } else if self.switch_countdown == 0 {
            self.switch_countdown = -1;
            true
        } else {
            self.switch_countdown = self.switch_countdown - 1;
            false
        }
    }
}

} // verus!
