//! The base color tables that the rendering collaborator interpolates.

use vstd::prelude::*;

verus! {

/// The error returned when a palette name is not recognized.
#[derive(Debug, Clone, PartialEq, Eq, Structural)]
pub struct PaletteParseError;

/// The blue base palette, light to dark, one RGBA quadruple per stop.
pub open spec fn blue_palette() -> Seq<[u8; 4]> {
    seq![
        [247u8, 251u8, 255u8, 255u8],
        [222u8, 235u8, 247u8, 255u8],
        [198u8, 219u8, 239u8, 255u8],
        [158u8, 202u8, 225u8, 255u8],
        [107u8, 174u8, 214u8, 255u8],
        [66u8, 146u8, 198u8, 255u8],
        [33u8, 113u8, 181u8, 255u8],
        [8u8, 81u8, 156u8, 255u8],
        [8u8, 48u8, 107u8, 255u8],
    ]
}

/// The red base palette, light to dark, one RGBA quadruple per stop.
pub open spec fn red_palette() -> Seq<[u8; 4]> {
    seq![
        [255u8, 245u8, 240u8, 255u8],
        [254u8, 224u8, 210u8, 255u8],
        [252u8, 187u8, 161u8, 255u8],
        [252u8, 146u8, 114u8, 255u8],
        [251u8, 106u8, 74u8, 255u8],
        [239u8, 59u8, 44u8, 255u8],
        [203u8, 24u8, 29u8, 255u8],
        [165u8, 15u8, 21u8, 255u8],
        [103u8, 0u8, 13u8, 255u8],
    ]
}

fn str_equal(a: &str, b: &str) -> (r: bool)
    ensures
        r <==> a@ == b@,
{
    let n = a.unicode_len();
    if n != b.unicode_len() {
        proof {
            if a@ == b@ {
                assert(a@.len() == b@.len());
            }
        }
        return false;
    }
    let mut i: usize = 0;
    while i < n
        invariant
            n == a@.len(),
            n == b@.len(),
            i <= n,
            forall|j: int| 0 <= j < i ==> a@[j] == b@[j],
        decreases n - i,
    {
        if a.get_char(i) != b.get_char(i) {
            return false;
        }
        i = i + 1;
    }
    proof {
        assert(a@ =~= b@);
    }
    true
}

/// The base palette that a name denotes: "blue" and "red" are the
/// recognized names; any other name is a parse failure.
pub fn get_base_palette(name: &str) -> (r: Result<Vec<[u8; 4]>, PaletteParseError>)
    ensures
        r is Ok <==> (name@ == "blue"@ || name@ == "red"@),
        name@ == "blue"@ ==> (r matches Ok(p) && p@ == blue_palette()),
        name@ == "red"@ ==> (r matches Ok(p) && p@ == red_palette()),
{
    proof {
        reveal_strlit("blue");
        reveal_strlit("red");
        assert("blue"@.len() == 4);
        assert("red"@.len() == 3);
    }
    if str_equal(name, "blue") {
        let mut p: Vec<[u8; 4]> = Vec::new();
        p.push([247, 251, 255, 255]);
        p.push([222, 235, 247, 255]);
        p.push([198, 219, 239, 255]);
        p.push([158, 202, 225, 255]);
        p.push([107, 174, 214, 255]);
        p.push([66, 146, 198, 255]);
        p.push([33, 113, 181, 255]);
        p.push([8, 81, 156, 255]);
        p.push([8, 48, 107, 255]);
        proof {
            assert(p@ =~= blue_palette());
        }
        Ok(p)
    } else if str_equal(name, "red") {
        let mut p: Vec<[u8; 4]> = Vec::new();
        p.push([255, 245, 240, 255]);
        p.push([254, 224, 210, 255]);
        p.push([252, 187, 161, 255]);
        p.push([252, 146, 114, 255]);
        p.push([251, 106, 74, 255]);
        p.push([239, 59, 44, 255]);
        p.push([203, 24, 29, 255]);
        p.push([165, 15, 21, 255]);
        p.push([103, 0, 13, 255]);
        proof {
            assert(p@ =~= red_palette());
        }
        Ok(p)
    } else {
        Err(PaletteParseError)
    }
}

} // verus!
