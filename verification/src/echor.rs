//! The text that an `echo` prints.

use vstd::prelude::*;
use vstd::string::*;

verus! {

/// The words joined into one text, with one blank between neighbours.
pub open spec fn joined(words: Seq<Seq<char>>) -> Seq<char>
    decreases words.len(),
{
    if words.len() == 0 {
        Seq::empty()
    } else if words.len() == 1 {
        words[0]
    } else {
        joined(words.drop_last()) + seq![' '] + words.last()
    }
}

/// The views of a sequence of strings.
pub open spec fn views(words: Seq<String>) -> Seq<Seq<char>> {
    words.map_values(|w: String| w@)
}

/// The text to print for the given words: the words with one blank
/// between neighbours, and a line feed at the end unless it is left out.
pub fn render(text: &Vec<String>, omit_newline: bool) -> (printed: String)
    ensures
        printed@ == joined(views(text@)) + if omit_newline {
            Seq::<char>::empty()
        } else {
            seq!['\n']
        },
{
    let mut printed = String::new();
    let mut i: usize = 0;
    assert(views(text@).take(0) =~= Seq::<Seq<char>>::empty());
    while i < text.len()
        invariant
            i <= text@.len(),
            printed@ == joined(views(text@).take(i as int)),
        decreases text@.len() - i,
    {
        let ghost before = views(text@).take(i as int);
        let ghost upto = views(text@).take(i + 1);
        assert(upto.drop_last() =~= before);
        assert(upto.last() == text@[i as int]@);
        if i > 0 {
            printed.append(" ");
            proof {
                reveal_strlit(" ");
                assert(" "@ =~= seq![' ']);
            }
        }
        printed.append(text[i].as_str());
        assert(printed@ =~= joined(upto));
        i += 1;
    }
    assert(views(text@).take(i as int) =~= views(text@));
    if !omit_newline {
        printed.append("\n");
        proof {
            reveal_strlit("\n");
            assert("\n"@ =~= seq!['\n']);
        }
    } else {
        assert(printed@ + Seq::<char>::empty() =~= printed@);
    }
    printed
}

} // verus!
