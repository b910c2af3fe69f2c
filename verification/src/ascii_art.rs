//! The built-in ASCII-art gallery and the catalogue of artist-signature
//! tokens that are disclosed last.
use crate::text::str_to_chars;
use vstd::prelude::*;

verus! {

/// How many built-in images the gallery holds.
pub const BUILTIN_IMAGE_COUNT: usize = 4;

/// One built-in ASCII-art piece, as a plain multi-line text.
pub fn builtin_image(i: usize) -> (r: &'static str)
    requires
        i < BUILTIN_IMAGE_COUNT,
{
    match i {
        0 => "    ,,,,,\n   (o   o)\n    /. .\\\n   (_____)\n     : :\n    ##O##'\n  ,,,: :,,,\n _)\\ : : /(____\n{  \\     /  ___}\n \\/)     ((/\n  (_______)\n    :   :\n    :   :\n   / \\ / \\\n   \"\"\" \"\"\"\n",
        1 => "    |\\_|X|_/|\n   /         \\\n =(  O     O  )=\n  -\\    o    /-\n   / .-----. \\\n /_ | o   o |_ \\\n(U  |       |  U)\n   _|_     _|_\n  (   )---(   )\n",
        2 => "        _.---._    /\\\\\n     ./'       \"--`\\//\n   ./              o \\\n  /./\\  )______   \\__ \\\n ./  / /\\ \\   | \\ \\  \\ \\\n    / /  \\ \\  | |\\ \\  \\7\n     \"     \"    \"  \"        VK\n",
        _ => "        _\n       [ ]\n      (   )\n       |>|\n    __/===\\__\n   //| o=o |\\\\\n <]  | o=o |  [>\n     \\=====/\n    / / | \\ \\\n   <_________>\n",
    }
}

/// The catalogue of artist-signature tokens: credit marks that are removed
/// from the art before pixel extraction and disclosed last.
pub open spec fn spec_signature_tokens() -> Seq<Seq<char>> {
    seq![
        seq!['j', 'e', 'n', 's'],
        seq!['l', 'i', 's'],
        seq!['j', 'g', 's'],
        seq!['h', 'j', 'w'],
        seq!['e', 'j', 'm'],
        seq!['s', 'n', 'd'],
        seq!['V', 'K'],
    ]
}

/// The signature catalogue, as executable character vectors.
pub fn signature_tokens() -> (r: Vec<Vec<char>>)
    ensures
        r.deep_view() == spec_signature_tokens(),
        forall|i: int| 0 <= i < r.deep_view().len() ==> (#[trigger] r.deep_view()[i]).len() >= 1,
{
    let mut r: Vec<Vec<char>> = Vec::new();
    let t0 = str_to_chars("jens");
    let t1 = str_to_chars("lis");
    let t2 = str_to_chars("jgs");
    let t3 = str_to_chars("hjw");
    let t4 = str_to_chars("ejm");
    let t5 = str_to_chars("snd");
    let t6 = str_to_chars("VK");
    proof {
        reveal_strlit("jens");
        reveal_strlit("lis");
        reveal_strlit("jgs");
        reveal_strlit("hjw");
        reveal_strlit("ejm");
        reveal_strlit("snd");
        reveal_strlit("VK");
    }
    r.push(t0);
    r.push(t1);
    r.push(t2);
    r.push(t3);
    r.push(t4);
    r.push(t5);
    r.push(t6);
    proof {
        assert(r.deep_view() =~~= spec_signature_tokens());
    }
    r
}

} // verus!
