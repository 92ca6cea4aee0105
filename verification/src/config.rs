//! Fixed configuration of the radar service.
use vstd::prelude::*;

verus! {

/// Base URL of the Meteo-France radar API.
pub const METEO_API_BASE: &'static str = "https://public-api.meteofrance.fr/public/DPRadar/v1";

/// Radar zone: mainland France.
pub const ZONE: &'static str = "METROPOLE";

/// Observation product: accumulated rain.
pub const OBSERVATION: &'static str = "LAME_D_EAU";

/// Grid resolution in metres.
pub const MAILLE: u32 = 500;

/// Download polling interval in seconds.
pub const POLLING_INTERVAL_SECONDS: u64 = 10;

/// Rain intensity levels and their thresholds (ACRR in 0.01 mm units):
/// light from 0.1 mm, moderate from 0.5 mm, heavy from 1.0 mm.
pub fn thresholds() -> (t: Vec<(&'static str, u32)>)
    ensures
        t@.len() == 3,
        t@[0].0@ == "light"@ && t@[0].1 == 10,
        t@[1].0@ == "moderate"@ && t@[1].1 == 50,
        t@[2].0@ == "heavy"@ && t@[2].1 == 100,
{
    let mut t: Vec<(&'static str, u32)> = Vec::new();
    t.push(("light", 10));
    t.push(("moderate", 50));
    t.push(("heavy", 100));
    t
}

/// The colour of each rain level (hex RGB): green, yellow, red. Each level occurs once.
pub fn colors() -> (m: Vec<(&'static str, &'static str)>)
    ensures
        m@.len() == 3,
        m@[0].0@ == "light"@ && m@[0].1@ == "#00FF00"@,
        m@[1].0@ == "moderate"@ && m@[1].1@ == "#FFFF00"@,
        m@[2].0@ == "heavy"@ && m@[2].1@ == "#FF0000"@,
{
    let mut m: Vec<(&'static str, &'static str)> = Vec::new();
    m.push(("light", "#00FF00"));
    m.push(("moderate", "#FFFF00"));
    m.push(("heavy", "#FF0000"));
    m
}

/// Each level named by `thresholds` has exactly one colour in `colors`, and the levels
/// are distinct, listed in increasing order of threshold.
pub proof fn lemma_levels_consistent(t: Seq<(&'static str, u32)>, m: Seq<(&'static str, &'static str)>)
    requires
        t.len() == 3,
        t[0].0@ == "light"@ && t[0].1 == 10,
        t[1].0@ == "moderate"@ && t[1].1 == 50,
        t[2].0@ == "heavy"@ && t[2].1 == 100,
        m.len() == 3,
        m[0].0@ == "light"@,
        m[1].0@ == "moderate"@,
        m[2].0@ == "heavy"@,
    ensures
        forall|i: int, j: int| 0 <= i < j < 3 ==> t[i].0@ != t[j].0@ && t[i].1 < t[j].1,
        forall|i: int| 0 <= i < 3 ==> m[i].0@ == t[i].0@,
{
    reveal_strlit("light");
    reveal_strlit("moderate");
    reveal_strlit("heavy");
    assert("light"@ != "moderate"@ && "light"@ != "heavy"@ && "moderate"@ != "heavy"@) by {
        assert("light"@.len() != "moderate"@.len());
        assert("light"@.len() != "heavy"@.len() || "light"@[0] != "heavy"@[0]);
        assert("moderate"@.len() != "heavy"@.len());
    }
}

} // verus!
