//! The plant: the directory of a Wingman project, with its seed.
use vstd::prelude::*;
use crate::forge::seed::{Seed, VERSION, seed_json};
use crate::path::{join, join_text};
use crate::text::same_text;

verus! {

/// The base of a Wingman project.
pub struct Plant {
    pot: String,
    /// Holds the JSON seed file generated by `Seed::make_json`.
    seed: String,
    seed_struct: Option<Seed>,
}

impl Plant {
    /// The directory of the project.
    pub closed spec fn spec_pot(&self) -> Seq<char> {
        self.pot@
    }

    /// The JSON text of the project's seed file.
    pub closed spec fn spec_seed(&self) -> Seq<char> {
        self.seed@
    }

    /// The seed the project was built with, if any.
    pub closed spec fn spec_seed_struct(&self) -> Option<Seed> {
        self.seed_struct
    }

    /// A project in the directory `path`, whose seed file holds an empty seed.
    pub fn new(path: String, seed_struct: Option<Seed>) -> (p: Plant)
        ensures
            p.spec_pot() == path@,
            p.spec_seed() == seed_json(Seq::empty(), VERSION@, Seq::empty()),
            p.spec_seed_struct() == seed_struct,
    {
        let empty = Seed::new(String::new(), String::new());
        let seed = empty.make_json();
        Plant { pot: path, seed, seed_struct }
    }

    /// A project in the directory `path` with the seed `existing`, which was read
    /// from the seed file there.
    pub fn build_with_existing_seed(path: String, existing: Seed) -> (p: Plant)
        ensures
            p.spec_pot() == path@,
            p.spec_seed() == seed_json(existing.title@, existing.version@, existing.theme@),
            p.spec_seed_struct() == Some(existing),
    {
        let seed = existing.make_json();
        Plant { pot: path, seed, seed_struct: Some(existing) }
    }

    /// The directory of the project.
    pub fn pot(&self) -> (r: &String)
        ensures
            r@ == self.spec_pot(),
    {
        &self.pot
    }

    /// The JSON text of the project's seed file.
    pub fn seed(&self) -> (r: &String)
        ensures
            r@ == self.spec_seed(),
    {
        &self.seed
    }

    /// The seed the project was built with, if any.
    pub fn seed_struct(&self) -> (r: &Option<Seed>)
        ensures
            *r == self.spec_seed_struct(),
    {
        &self.seed_struct
    }

    /// The directory that a build with the given flag creates: `target` for no
    /// flag, `target/release` for `release`, none for any other flag.
    pub fn build_dir(&self, flag: Option<&str>) -> (r: Option<String>)
        ensures
            match flag {
                None => r matches Some(d) && d@ == join_text(self.spec_pot(), "target"@),
                Some(f) => if f@ == "release"@ {
                    r matches Some(d) && d@ == join_text(self.spec_pot(), "target/release"@)
                } else {
                    r is None
                },
            },
    {
        match flag {
            None => Some(join(self.pot.as_str(), "target")),
            Some(f) => {
                if same_text(f, "release") {
                    Some(join(self.pot.as_str(), "target/release"))
                } else {
                    None
                }
            },
        }
    }
}

} // verus!
