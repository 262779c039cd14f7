use vstd::prelude::*;

verus! {

/// The encodation schemes the host can switch between. Only the default
/// (ASCII) scheme is ever requested by this encoder; the EDIFACT variant
/// names the scheme the encoder itself implements.
#[derive(Clone, Copy, Debug, PartialEq, Eq, Structural)]
pub enum EncodationType {
    Ascii,
    Edifact,
}

/// The two failure modes of an encode run.
#[derive(Clone, Copy, Debug, PartialEq, Eq, Structural)]
pub enum EncodationError {
    /// An input character falls outside the encodable range of this mode.
    IllegalEdifactCharacter,
    /// Capacity information needed at end of segment is unavailable.
    NotEnoughSpace,
}

/// A snapshot of the host state the encoder can observe: the unconsumed
/// input, the characters consumed so far, the codewords emitted so far,
/// and the active encodation scheme.
pub ghost struct CtxView {
    pub input: Seq<u8>,
    pub taken: Seq<u8>,
    pub output: Seq<u8>,
    pub mode: EncodationType,
}

/// The host-provided encoding context: an input cursor, an output sink,
/// symbol-capacity bookkeeping, and the mode flag. The encoder mutates
/// host state only through these operations.
pub trait EncodingContext: Sized {
    /// The input characters not yet consumed, in order; the front is next.
    spec fn input(&self) -> Seq<u8>;

    /// The input characters consumed so far, in consumption order.
    spec fn taken(&self) -> Seq<u8>;

    /// The codewords appended to the output sink so far, in order.
    spec fn output(&self) -> Seq<u8>;

    /// The currently active encodation scheme.
    spec fn mode(&self) -> EncodationType;

    /// The number of codewords that would remain in the symbol if `extra`
    /// more were reserved, or none if symbol sizing is undetermined.
    spec fn space_left(&self, extra: nat) -> Option<nat>;

    /// Consume and return the next unread input character, or none if the
    /// input is exhausted.
    fn eat(&mut self) -> (r: Option<u8>)
        ensures
            old(self).input().len() == 0 ==> {
                &&& r is None
                &&& final(self).input() == old(self).input()
                &&& final(self).taken() == old(self).taken()
            },
            old(self).input().len() > 0 ==> {
                &&& r == Some(old(self).input()[0])
                &&& final(self).input() == old(self).input().skip(1)
                &&& final(self).taken() == old(self).taken().push(old(self).input()[0])
            },
            final(self).output() == old(self).output(),
            final(self).mode() == old(self).mode(),
            forall|e: nat| #[trigger] final(self).space_left(e) == old(self).space_left(e),
    ;

    /// The number of input characters not yet consumed.
    fn characters_left(&self) -> (r: usize)
        ensures
            r == self.input().len(),
    ;

    /// True iff some input character has not been consumed yet.
    fn has_more_characters(&self) -> (r: bool)
        ensures
            r == (self.input().len() > 0),
    ;

    /// The unconsumed input characters, in order, without consuming them.
    fn rest(&self) -> (r: &[u8])
        ensures
            r@ == self.input(),
    ;

    /// Un-consume the last `steps` characters taken, restoring them to the
    /// front of the unconsumed stream in their original order.
    fn backup(&mut self, steps: usize)
        requires
            steps <= old(self).taken().len(),
        ensures
            final(self).taken() == old(self).taken().take(
                old(self).taken().len() - steps,
            ),
            final(self).input() == old(self).taken().skip(
                old(self).taken().len() - steps,
            ) + old(self).input(),
            final(self).output() == old(self).output(),
            final(self).mode() == old(self).mode(),
            forall|e: nat| #[trigger] final(self).space_left(e) == old(self).space_left(e),
    ;

    /// Append one codeword to the output sink. Reserving one more codeword
    /// shifts the capacity query by one.
    fn push(&mut self, cw: u8)
        ensures
            final(self).output() == old(self).output().push(cw),
            final(self).input() == old(self).input(),
            final(self).taken() == old(self).taken(),
            final(self).mode() == old(self).mode(),
            forall|e: nat| #[trigger] final(self).space_left(e) == old(self).space_left(
                (e + 1) as nat,
            ),
    ;

    /// The number of codewords that would remain in the symbol if `extra`
    /// more were reserved, or none if symbol sizing is undetermined.
    fn symbol_size_left(&mut self, extra: usize) -> (r: Option<usize>)
        ensures
            final(self).input() == old(self).input(),
            final(self).taken() == old(self).taken(),
            final(self).output() == old(self).output(),
            final(self).mode() == old(self).mode(),
            forall|e: nat| #[trigger] final(self).space_left(e) == old(self).space_left(e),
            match r {
                Some(x) => old(self).space_left(extra as nat) == Some(x as nat),
                None => old(self).space_left(extra as nat) is None,
            },
    ;

    /// Switch the host's active encodation scheme for subsequent input.
    fn set_mode(&mut self, mode: EncodationType)
        ensures
            final(self).mode() == mode,
            final(self).input() == old(self).input(),
            final(self).taken() == old(self).taken(),
            final(self).output() == old(self).output(),
            forall|e: nat| #[trigger] final(self).space_left(e) == old(self).space_left(e),
    ;

    /// Host-side look-ahead heuristic: true iff the encoder should stop
    /// consuming and yield control, even though input remains. The answer
    /// is the host's alone; nothing the encoder can observe changes.
    fn maybe_switch_mode(&mut self) -> (r: bool)
        ensures
            final(self).input() == old(self).input(),
            final(self).taken() == old(self).taken(),
            final(self).output() == old(self).output(),
            final(self).mode() == old(self).mode(),
            forall|e: nat| #[trigger] final(self).space_left(e) == old(self).space_left(e),
    ;
}

/// The observable part of a context's state, gathered into one value.
pub open spec fn view_of<T: EncodingContext>(ctx: T) -> CtxView {
    CtxView {
        input: ctx.input(),
        taken: ctx.taken(),
        output: ctx.output(),
        mode: ctx.mode(),
    }
}

} // verus!
