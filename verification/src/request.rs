use vstd::prelude::*;
use crate::scrape::{page_url, search_url, ENDPOINT_AO3};

verus! {

/// The fandom whose works `page` lists.
pub const DEFAULT_FANDOM: &'static str = "Avatar: The Last Airbender";

/// The address of page `number` of the works of the default fandom, by any creator, at the
/// archive.
pub fn page(number: u32) -> (r: String)
    ensures
        r@ == search_url(ENDPOINT_AO3@, number as nat, DEFAULT_FANDOM@, Seq::<char>::empty()),
{
    let r = page_url(ENDPOINT_AO3, number, DEFAULT_FANDOM, "");
    proof {
        reveal_strlit("");
        assert(""@ =~= Seq::<char>::empty());
    }
    r
}

} // verus!
