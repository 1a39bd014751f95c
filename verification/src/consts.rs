//! The texts that announce a death.

use vstd::prelude::*;

verus! {

/// What is said of a player killed by day, in the form
/// "<player> <text> that day."
pub open spec fn day_death_texts() -> Seq<Seq<char>> {
    seq!["was hung for their unforgivable sins"@]
}

/// What is said of a player killed by night, in the form
/// "<player> <text> the next morning."
pub open spec fn night_death_texts() -> Seq<Seq<char>> {
    seq![
        "was found stabbed to death"@,
        "was found strangled by an untyped python"@,
        "was found brutally beat with a mechanical keyboard"@,
        "was found poisoned from eating expired ketchup"@,
        "never made it home because of 101 traffic"@,
        "was found pummelled by what appears to have been a gorilla"@,
        "was found unresponsive next to a beer tower"@,
    ]
}

/// The texts of a pool of messages, in order.
pub open spec fn texts_of(pool: Seq<&'static str>) -> Seq<Seq<char>> {
    pool.map_values(|text: &'static str| text@)
}

/// The pool of day death messages; the first is the default.
pub fn day_death_messages() -> (pool: Vec<&'static str>)
    ensures
        pool@.len() == 1,
        texts_of(pool@) == day_death_texts(),
{
    let mut pool: Vec<&'static str> = Vec::new();
    pool.push("was hung for their unforgivable sins");
    assert(texts_of(pool@) =~= day_death_texts());
    pool
}

/// The pool of night death messages; the first is the default.
pub fn night_death_messages() -> (pool: Vec<&'static str>)
    ensures
        pool@.len() == 7,
        texts_of(pool@) == night_death_texts(),
{
    let mut pool: Vec<&'static str> = Vec::new();
    pool.push("was found stabbed to death");
    pool.push("was found strangled by an untyped python");
    pool.push("was found brutally beat with a mechanical keyboard");
    pool.push("was found poisoned from eating expired ketchup");
    pool.push("never made it home because of 101 traffic");
    pool.push("was found pummelled by what appears to have been a gorilla");
    pool.push("was found unresponsive next to a beer tower");
    assert(texts_of(pool@) =~= night_death_texts());
    pool
}

} // verus!
