use vstd::prelude::*;

verus! {

/// A control character: Unicode general category Cc, the C0 range
/// U+0000..=U+001F and the range U+007F..=U+009F.
pub open spec fn is_control(c: char) -> bool {
    (c as u32) < 0x20 || (0x7f <= (c as u32) && (c as u32) < 0xa0)
}

/// Whether `c` is a control character.
pub fn is_control_char(c: char) -> (r: bool)
    ensures
        r == is_control(c),
{
    let code = c as u32;
    code < 0x20 || (0x7f <= code && code < 0xa0)
}

/// The characters of `s` that are not control characters, in order.
pub open spec fn printable(s: Seq<char>) -> Seq<char> {
    s.filter(|c: char| !is_control(c))
}

/// The name being typed after one frame of keyboard input: Enter clears it,
/// then Backspace removes its last character, then the typed characters that
/// are not control characters are appended in order.
pub open spec fn edited(buffer: Seq<char>, enter: bool, backspace: bool, typed: Seq<char>) -> Seq<
    char,
> {
    let cleared = if enter {
        Seq::<char>::empty()
    } else {
        buffer
    };
    let erased = if backspace && cleared.len() > 0 {
        cleared.drop_last()
    } else {
        cleared
    };
    erased + printable(typed)
}

/// Applies one frame of keyboard input to the name being typed.
pub fn edit_typed_name(buffer: &mut Vec<char>, enter: bool, backspace: bool, typed: &Vec<char>)
    ensures
        final(buffer)@ == edited(old(buffer)@, enter, backspace, typed@),
{
    if enter {
        buffer.clear();
    }
    if backspace {
        buffer.pop();
    }
    let ghost start = buffer@;
    let mut i: usize = 0;
    while i < typed.len()
        invariant
            i <= typed@.len(),
            buffer@ == start + printable(typed@.take(i as int)),
        decreases typed@.len() - i,
    {
        let c = typed[i];
        proof {
            assert(typed@.take(i + 1).drop_last() =~= typed@.take(i as int));
            assert(typed@.take(i + 1).last() == c);
            reveal(Seq::filter);
            if is_control(c) {
                assert(printable(typed@.take(i + 1)) == printable(typed@.take(i as int)));
            } else {
                assert(printable(typed@.take(i + 1)) == printable(typed@.take(i as int)).push(c));
                assert(start + printable(typed@.take(i as int)).push(c) =~= (start + printable(typed@.take(i as int))).push(c));
            }
        }
        if !is_control_char(c) {
            buffer.push(c);
        }
        i += 1;
    }
    proof {
        reveal(Seq::filter);
        assert(typed@.take(i as int) =~= typed@);
    }
}

} // verus!
