//! Text from a form made safe to stand in an HTML mail.

use vstd::prelude::*;

verus! {

/// What stands for the byte `b` in HTML: an entity for `&`, `<`, `>`, `"`
/// and `'`, and the byte itself for any other. The five are ASCII, so text
/// in UTF-8 stays text in UTF-8.
pub open spec fn escaped_byte(b: u8) -> Seq<u8> {
    if b == 38 {
        seq![38u8, 97u8, 109u8, 112u8, 59u8]
    } else if b == 60 {
        seq![38u8, 108u8, 116u8, 59u8]
    } else if b == 62 {
        seq![38u8, 103u8, 116u8, 59u8]
    } else if b == 34 {
        seq![38u8, 113u8, 117u8, 111u8, 116u8, 59u8]
    } else if b == 39 {
        seq![38u8, 35u8, 51u8, 57u8, 59u8]
    } else {
        seq![b]
    }
}

/// `text` with every byte replaced by what stands for it in HTML.
pub open spec fn escaped(text: Seq<u8>) -> Seq<u8>
    decreases text.len(),
{
    if text.len() == 0 {
        Seq::empty()
    } else {
        escaped(text.drop_last()) + escaped_byte(text.last())
    }
}

/// Whether `b` opens or closes markup or an attribute value.
pub open spec fn is_markup(b: u8) -> bool {
    b == 60 || b == 62 || b == 34 || b == 39
}

/// Escaped text holds no byte that opens or closes markup.
pub proof fn law_escaped_holds_no_markup(text: Seq<u8>, at: int)
    requires
        0 <= at < escaped(text).len(),
    ensures
        !is_markup(escaped(text)[at]),
    decreases text.len(),
{
    if text.len() > 0 {
        let head = escaped(text.drop_last());
        if at < head.len() {
            law_escaped_holds_no_markup(text.drop_last(), at);
        }
    }
}

/// `text` made safe to stand in HTML.
pub fn escape_html(text: &[u8]) -> (out: Vec<u8>)
    ensures
        out@ == escaped(text@),
{
    let mut out: Vec<u8> = Vec::new();
    let mut i: usize = 0;
    while i < text.len()
        invariant
            0 <= i <= text@.len(),
            out@ == escaped(text@.take(i as int)),
        decreases text@.len() - i,
    {
        let b = text[i];
        let ghost before = out@;
        if b == 38 {
            out.push(38);
            out.push(97);
            out.push(109);
            out.push(112);
            out.push(59);
        } else if b == 60 {
            out.push(38);
            out.push(108);
            out.push(116);
            out.push(59);
        } else if b == 62 {
            out.push(38);
            out.push(103);
            out.push(116);
            out.push(59);
        } else if b == 34 {
            out.push(38);
            out.push(113);
            out.push(117);
            out.push(111);
            out.push(116);
            out.push(59);
        } else if b == 39 {
            out.push(38);
            out.push(35);
            out.push(51);
            out.push(57);
            out.push(59);
        } else {
            out.push(b);
        }
        proof {
            assert(text@.take(i + 1).drop_last() =~= text@.take(i as int));
            assert(text@.take(i + 1).last() == b);
            assert(out@ =~= before + escaped_byte(b));
        }
        i += 1;
    }
    proof {
        assert(text@.take(text@.len() as int) =~= text@);
    }
    out
}

} // verus!
