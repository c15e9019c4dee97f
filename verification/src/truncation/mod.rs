//! Cut streams. A decoder reads its element and nothing behind it, so what it
//! decodes does not depend on what follows; and a stream that is cut off
//! inside an element that would decode fails with `PrematureEof`, naming the
//! innermost element that the cut leaves open.
//!
//! [`model`] holds the theorems for a model and what it is made of,
//! [`report`] those for the sections of a report.

pub mod model;
pub mod report;

use crate::error::ErrorView;
use crate::reader::named;
use crate::xml::{Token, XmlEvent};
use vstd::prelude::*;
use vstd::utf8::{decode_utf8, encode_utf8};

verus! {

/// Where a decoder that starts at `pos` may leave the cursor: not before
/// `pos`, and within the stream unless it has not moved.
pub open spec fn within(tokens: Seq<Token>, pos: nat, next: nat) -> bool {
    pos <= next && (next <= tokens.len() || next == pos)
}

/// Where the body of an element may leave the cursor: within the stream, and
/// behind the token at `pos` if there is one.
pub open spec fn advances(tokens: Seq<Token>, pos: nat, next: nat) -> bool {
    within(tokens, pos, next) && (pos < tokens.len() ==> pos < next)
}

/// The names of the open elements behind one more event: an opening tag
/// opens its element, an end tag closes the innermost one.
pub open spec fn stack_after(event: XmlEvent, stack: Seq<Seq<u8>>) -> Seq<Seq<u8>> {
    match event {
        XmlEvent::Start(tag) => stack.push(tag.name@),
        XmlEvent::End(_) => closed(stack),
        _ => stack,
    }
}

/// The names of the open elements once the innermost one is closed.
pub open spec fn closed(stack: Seq<Seq<u8>>) -> Seq<Seq<u8>> {
    if stack.len() > 0 {
        stack.drop_last()
    } else {
        stack
    }
}

/// The names of the elements that are open behind `tokens[from..to]`, when
/// those of `stack` were open before, outermost first.
pub open spec fn open_stack(tokens: Seq<Token>, from: nat, to: nat, stack: Seq<Seq<u8>>) -> Seq<
    Seq<u8>,
>
    decreases to - from,
{
    if from >= to || from >= tokens.len() {
        stack
    } else {
        open_stack(tokens, from + 1, to, stack_after(tokens[from as int].event, stack))
    }
}

/// The element that is open where the elements of `stack` are open inside
/// the element `root`: the innermost of them, or `root` itself.
pub open spec fn innermost(root: Seq<char>, stack: Seq<Seq<u8>>) -> Seq<char> {
    if stack.len() == 0 {
        root
    } else {
        decode_utf8(stack.last())
    }
}

/// The element that is open at `k`, when the body of the element `root`
/// starts at `pos`: the one whose opening tag is the last in `tokens[pos..k]`
/// that no end tag has closed, or `root`.
pub open spec fn open_element(root: Seq<char>, tokens: Seq<Token>, pos: nat, k: nat) -> Seq<char> {
    innermost(root, open_stack(tokens, pos, k, Seq::empty()))
}

/// What holds of a decoder on a stream and on the same stream cut at `k`,
/// both from `pos`: if the decoder ends within the first `k` tokens, the cut
/// changes nothing; if it decodes its element and the cut falls inside the
/// element, the cut stream fails with `PrematureEof` naming `open`.
pub open spec fn cut_law<T>(
    full: (Result<T, ErrorView>, nat),
    short: (Result<T, ErrorView>, nat),
    pos: nat,
    k: nat,
    open: Seq<char>,
) -> bool {
    &&& full.1 <= k ==> short == full
    &&& full.0 is Ok && pos <= k < full.1 ==> short.0 == Err::<T, ErrorView>(
        ErrorView::PrematureEof { element: open },
    )
}

/// The open elements behind `tokens[a..c]` are those behind `tokens[b..c]`
/// after those behind `tokens[a..b]`.
pub proof fn lemma_open_stack_split(
    tokens: Seq<Token>,
    a: nat,
    b: nat,
    c: nat,
    stack: Seq<Seq<u8>>,
)
    requires
        a <= b <= c,
    ensures
        open_stack(tokens, a, c, stack) == open_stack(
            tokens,
            b,
            c,
            open_stack(tokens, a, b, stack),
        ),
    decreases b - a,
{
    if a < b && a < tokens.len() {
        lemma_open_stack_split(
            tokens,
            a + 1,
            b,
            c,
            stack_after(tokens[a as int].event, stack),
        );
    } else if a < b {
        lemma_open_stack_beyond(tokens, b, c, stack);
    }
}

/// Behind the end of the stream nothing opens or closes.
pub proof fn lemma_open_stack_beyond(tokens: Seq<Token>, from: nat, to: nat, stack: Seq<Seq<u8>>)
    requires
        from >= tokens.len(),
    ensures
        open_stack(tokens, from, to, stack) == stack,
{
}

/// A cut stream opens and closes what the whole stream does, up to the cut.
pub proof fn lemma_open_stack_take(
    tokens: Seq<Token>,
    from: nat,
    to: nat,
    k: nat,
    stack: Seq<Seq<u8>>,
)
    requires
        to <= k <= tokens.len(),
    ensures
        open_stack(tokens.take(k as int), from, to, stack) == open_stack(tokens, from, to, stack),
    decreases to - from,
{
    if from < to {
        lemma_open_stack_take(
            tokens,
            from + 1,
            to,
            k,
            stack_after(tokens[from as int].event, stack),
        );
    }
}

/// The name of an element is the name that its opening tag holds.
pub proof fn lemma_named_element(
    name: Seq<u8>,
    element: Seq<char>,
    stack: Seq<Seq<u8>>,
    root: Seq<char>,
)
    requires
        named(name, element),
    ensures
        innermost(root, stack.push(name)) == element,
        closed(stack.push(name)) == stack,
{
    broadcast use vstd::utf8::encode_utf8_decode_utf8;

    assert(decode_utf8(encode_utf8(element)) == element);
    assert(stack.push(name).drop_last() =~= stack);
}

} // verus!
