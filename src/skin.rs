use vstd::prelude::*;

use crate::button::same_text;
use crate::piano_roll::Theme;

verus! {

/// What `str::to_lowercase` makes of a string.
pub uninterp spec fn lower_of(s: Seq<char>) -> Seq<char>;

/// Relies on `str::to_lowercase`: the result depends on the characters alone,
/// and the empty string stays empty.
#[verifier::external_body]
fn lowercase(s: &str) -> (r: String)
    ensures
        r@ == lower_of(s@),
        s@.len() == 0 ==> r@.len() == 0,
{
    s.to_lowercase()
}

impl Theme {
    /// A background named `name` (kept in lower case) of the given pixel size.
    pub fn new(name: &str, width: u32, height: u32) -> (r: Theme)
        ensures
            r.theme@ == lower_of(name@),
            r.width == width,
            r.height == height,
    {
        Theme { theme: lowercase(name), width, height }
    }
}

/// Position of the first background whose theme is `theme`, if any.
pub fn find_background(backgrounds: &Vec<Theme>, theme: &str) -> (r: Option<usize>)
    ensures
        match r {
            Some(i) => {
                &&& i < backgrounds@.len()
                &&& backgrounds@[i as int].theme@ == theme@
                &&& forall|j: int| 0 <= j < i ==> backgrounds@[j].theme@ != theme@
            },
            None => forall|j: int| 0 <= j < backgrounds@.len() ==> backgrounds@[j].theme@ != theme@,
        },
{
    let mut i: usize = 0;
    while i < backgrounds.len()
        invariant
            0 <= i <= backgrounds@.len(),
            forall|j: int| 0 <= j < i ==> backgrounds@[j].theme@ != theme@,
        decreases backgrounds@.len() - i,
    {
        if same_text(backgrounds[i].theme.as_str(), theme) {
            return Some(i);
        }
        i = i + 1;
    }
    None
}

} // verus!
