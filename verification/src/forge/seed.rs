//! The seed: the configuration file of a Wingman project.
use vstd::prelude::*;
use crate::json::{json_string, json_string_literal, read_string, lemma_json_string_reads_back};

verus! {

/// The version of Wingman that writes a seed.
pub const VERSION: &'static str = "0.1.0";

/// The configuration of a Wingman project.
pub struct Seed {
    pub title: String,
    pub version: String,
    pub theme: String,
}

/// The JSON text of a seed with the given fields, as `serde_json` writes the
/// struct: one object with the fields `title`, `version` and `theme`, in that order.
pub open spec fn seed_json(title: Seq<char>, version: Seq<char>, theme: Seq<char>) -> Seq<char> {
    "{\"title\":"@ + json_string(title) + ",\"version\":"@ + json_string(version) + ",\"theme\":"@
        + json_string(theme) + "}"@
}

/// The JSON text of a seed reads back as the object it stands for: after
/// `{"title":` comes a string literal that reads as the title, then
/// `,"version":` and a literal that reads as the version, then `,"theme":` and
/// a literal that reads as the theme, then `}`. Every field is kept whole,
/// whatever its characters.
pub proof fn lemma_seed_json_reads_back(title: Seq<char>, version: Seq<char>, theme: Seq<char>)
    ensures
        ({
            let j = seed_json(title, version, theme);
            let k1 = "{\"title\":"@;
            let k2 = ",\"version\":"@;
            let k3 = ",\"theme\":"@;
            let r1 = read_string(j.skip(k1.len() as int));
            let (t1, after1) = r1->0;
            let r2 = read_string(after1.skip(k2.len() as int));
            let (t2, after2) = r2->0;
            let r3 = read_string(after2.skip(k3.len() as int));
            let (t3, after3) = r3->0;
            &&& j.take(k1.len() as int) == k1
            &&& r1 is Some && t1 == title
            &&& after1.take(k2.len() as int) == k2
            &&& r2 is Some && t2 == version
            &&& after2.take(k3.len() as int) == k3
            &&& r3 is Some && t3 == theme
            &&& after3 == "}"@
        }),
{
    let j = seed_json(title, version, theme);
    let k1 = "{\"title\":"@;
    let k2 = ",\"version\":"@;
    let k3 = ",\"theme\":"@;
    let rest3 = "}"@;
    let rest2 = k3 + json_string(theme) + rest3;
    let rest1 = k2 + json_string(version) + rest2;
    assert(j =~= k1 + (json_string(title) + rest1));
    assert(j.take(k1.len() as int) =~= k1);
    assert(j.skip(k1.len() as int) =~= json_string(title) + rest1);
    lemma_json_string_reads_back(title, rest1);
    assert(rest1.take(k2.len() as int) =~= k2);
    assert(rest1.skip(k2.len() as int) =~= json_string(version) + rest2);
    lemma_json_string_reads_back(version, rest2);
    assert(rest2.take(k3.len() as int) =~= k3);
    assert(rest2.skip(k3.len() as int) =~= json_string(theme) + rest3);
    lemma_json_string_reads_back(theme, rest3);
}

/// The JSON string literal for `s`.
fn quoted(s: &str) -> (t: String)
    ensures
        t@ == json_string(s@),
{
    match json_string_literal(s) {
        Ok(t) => t,
        Err(_) => String::new(),
    }
}

impl Seed {
    /// A seed with the given title and theme, written by this version of Wingman.
    pub fn new(title: String, theme: String) -> (s: Seed)
        ensures
            s.title == title,
            s.version@ == VERSION@,
            s.theme == theme,
    {
        Seed { title, version: VERSION.to_owned(), theme }
    }

    /// The JSON text of the seed.
    pub fn make_json(&self) -> (j: String)
        ensures
            j@ == seed_json(self.title@, self.version@, self.theme@),
    {
        let mut j = String::new();
        proof {
            reveal_strlit("{\"title\":");
            reveal_strlit(",\"version\":");
            reveal_strlit(",\"theme\":");
            reveal_strlit("}");
        }
        j.append("{\"title\":");
        let t = quoted(self.title.as_str());
        j.append(t.as_str());
        j.append(",\"version\":");
        let v = quoted(self.version.as_str());
        j.append(v.as_str());
        j.append(",\"theme\":");
        let th = quoted(self.theme.as_str());
        j.append(th.as_str());
        j.append("}");
        j
    }
}

} // verus!
