//! Text that the terminal interface shows.
use crate::sql::join;
use vstd::prelude::*;
use vstd::string::*;

verus! {

/// How the error panel shows one error message: followed by a blank line.
pub open spec fn error_block(message: Seq<char>) -> Seq<char> {
    message + "\n\n"@
}

/// The error panel: each message as a block, the blocks on separate lines.
pub fn error_text(errors: &Vec<String>) -> (r: String)
    ensures
        r@ == join(
            Seq::new(errors@.len(), |i: int| error_block(errors@[i]@)),
            "\n"@,
        ),
{
    let ghost blocks = Seq::new(errors@.len(), |i: int| error_block(errors@[i]@));
    let mut out = String::new();
    let mut i: usize = 0;
    while i < errors.len()
        invariant
            i <= errors@.len(),
            blocks == Seq::new(errors@.len(), |i: int| error_block(errors@[i]@)),
            out@ == join(blocks.subrange(0, i as int), "\n"@),
        decreases errors@.len() - i,
    {
        if i > 0 {
            out.append("\n");
            assert(blocks.subrange(0, i + 1).drop_last() =~= blocks.subrange(0, i as int));
        } else {
            assert(blocks.subrange(0, 1) =~= seq![blocks[0]]);
            assert(out@ =~= Seq::<char>::empty());
        }
        out.append(errors[i].as_str());
        out.append("\n\n");
        i = i + 1;
    }
    assert(blocks.subrange(0, errors@.len() as int) =~= blocks);
    out
}

} // verus!
