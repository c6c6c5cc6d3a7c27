//! What the `new` and `post` commands of the older blog workflow decide: which
//! seed file to write, whether a seed is a blog, and where a new post goes.
use vstd::prelude::*;
use crate::text::same_text;
use crate::jsondoc::{JsonKind, lemma_find_member_absent, lemma_find_member_first, JsonNode, facts, facts_of, member, member_of, read_json, parsed_json, JsonError};

verus! {

/// The seed file of a project of no particular type.
pub const PLAIN_SEED: &'static str = "{\n\"type\":\"\",\n\"head\":\"\",\n\"vars\": {\n    \"title\":\"\",\n    \"description\":\"\",\n    \"author\":\"\"\n},\n\"footer\":\"\",\n\"theme\":\"\"\n}";

/// The seed file of a blog.
pub const BLOG_SEED: &'static str = "{\n\"type\":\"blog\",\n\"head\":\"\",\n\"vars\": {\n    \"title\":\"\",\n    \"description\":\"\",\n    \"author\":\"\"\n},\n\"footer\":\"\",\n\"theme\":\"\"\n}";

/// The seed file that `new` writes for the parameter `param`: the blog seed
/// for `blog`, the plain seed for anything else.
pub fn seed_template(param: &str) -> (t: &'static str)
    ensures
        t@ == (if param@ == "blog"@ {
            BLOG_SEED@
        } else {
            PLAIN_SEED@
        }),
{
    if same_text(param, "blog") {
        BLOG_SEED
    } else {
        PLAIN_SEED
    }
}

/// The lower-case form of `s`, as `str::to_lowercase` gives it.
pub uninterp spec fn lowercase(s: Seq<char>) -> Seq<char>;

/// `str::to_lowercase`: the lower-case mapping of Unicode, which depends on the
/// text alone; it is named, not described.
#[verifier::external_body]
fn to_lowercase(s: &str) -> (r: String)
    ensures
        r@ == lowercase(s@),
{
    s.to_lowercase()
}

/// Whether a `type` field, by what is read of it, makes a seed a blog: it is
/// neither empty nor null, and its JSON text in lower case is `"blog"` with the quotes.
pub open spec fn is_blog(field: JsonFactsView) -> bool {
    !field.0 && !field.1 && lowercase(field.2) == "\"blog\""@
}

/// What the logic reads of a JSON value of the seed file: whether it is empty,
/// whether it is null, and its JSON text.
pub struct JsonFacts {
    pub is_empty: bool,
    pub is_null: bool,
    pub dump: String,
}

/// What is read of a JSON value: whether it is empty, whether it is null, its JSON text.
pub type JsonFactsView = (bool, bool, Seq<char>);

impl View for JsonFacts {
    type V = JsonFactsView;

    open spec fn view(&self) -> JsonFactsView {
        (self.is_empty, self.is_null, self.dump@)
    }
}

/// Whether the `type` field of a seed, given by what is read of it, makes the
/// seed a blog: the field must be neither empty nor null, and its JSON text in
/// lower case must be `"blog"` with the quotes.
pub fn is_blog_type(field: &JsonFacts) -> (r: bool)
    ensures
        r == is_blog(field@),
{
    if field.is_empty || field.is_null {
        return false;
    }
    let lower = to_lowercase(field.dump.as_str());
    same_text(lower.as_str(), "\"blog\"")
}

/// The character of a decimal digit.
pub open spec fn digit_char(d: nat) -> char {
    (('0' as u32) + d) as char
}

/// The decimal numeral of `n`.
pub open spec fn decimal(n: nat) -> Seq<char>
    decreases n,
{
    if n < 10 {
        seq![digit_char(n)]
    } else {
        decimal(n / 10).push(digit_char(n % 10))
    }
}

/// The decimal numeral of `v`, with a `-` in front if it is negative.
pub open spec fn signed_decimal(v: int) -> Seq<char> {
    if v < 0 {
        seq!['-'] + decimal((-v) as nat)
    } else {
        decimal(v as nat)
    }
}

/// Whether every character of `s` is a decimal digit.
pub open spec fn all_digits(s: Seq<char>) -> bool {
    forall|i: int| 0 <= i < s.len() ==> ('0' as u32) <= (#[trigger] s[i] as u32) <= ('9' as u32)
}

/// The number that the decimal digits `s` stand for, read from left to right.
pub open spec fn digits_value(s: Seq<char>) -> nat
    decreases s.len(),
{
    if s.len() == 0 {
        0
    } else {
        digits_value(s.drop_last()) * 10 + ((s.last() as u32) - ('0' as u32)) as nat
    }
}

/// Whether `field` is a decimal numeral that reads back as `n`.
pub open spec fn reads_as(field: Seq<char>, n: nat) -> bool {
    field.len() > 0 && all_digits(field) && digits_value(field) == n
}

/// Whether `field` is a decimal numeral, with a `-` in front where negative,
/// that reads back as `v`.
pub open spec fn reads_as_signed(field: Seq<char>, v: int) -> bool {
    if v < 0 {
        field.len() > 0 && field[0] == '-' && reads_as(field.drop_first(), (-v) as nat)
    } else {
        reads_as(field, v as nat)
    }
}

proof fn lemma_digit_char(d: nat)
    requires
        d < 10,
    ensures
        digit_char(d) as u32 == ('0' as u32) + d,
{
    assert(('0' as u32) == 48);
}

/// The decimal numeral of a number is made of digits and reads back as that
/// number; so two different numbers never share a numeral.
pub proof fn lemma_decimal_reads_back(n: nat)
    ensures
        reads_as(decimal(n), n),
    decreases n,
{
    lemma_digit_char(n % 10);
    if n < 10 {
        let d = decimal(n);
        assert(d.drop_last() =~= Seq::<char>::empty());
        assert(d.last() == digit_char(n));
        assert(digits_value(d.drop_last()) == 0);
        assert(digits_value(d) == n);
        assert(all_digits(d));
    } else {
        lemma_decimal_reads_back(n / 10);
        let d = decimal(n);
        assert(d.drop_last() =~= decimal(n / 10));
        assert forall|i: int| 0 <= i < d.len() implies ('0' as u32) <= (#[trigger] d[i] as u32) <= ('9' as u32) by {
            if i < d.len() - 1 {
                assert(d[i] == decimal(n / 10)[i]);
            }
        }
        assert(d.last() == digit_char(n % 10));
        assert(n == (n / 10) * 10 + n % 10);
        assert(digits_value(d) == n);
    }
}

/// Different numbers have different decimal numerals.
pub proof fn lemma_decimal_distinct(a: nat, b: nat)
    requires
        a != b,
    ensures
        decimal(a) != decimal(b),
{
    lemma_decimal_reads_back(a);
    lemma_decimal_reads_back(b);
}

/// The signed decimal numeral of a number reads back as that number.
pub proof fn lemma_signed_decimal_reads_back(v: int)
    ensures
        reads_as_signed(signed_decimal(v), v),
{
    if v < 0 {
        lemma_decimal_reads_back((-v) as nat);
        assert((seq!['-'] + decimal((-v) as nat)).drop_first() =~= decimal((-v) as nat));
    } else {
        lemma_decimal_reads_back(v as nat);
    }
}

/// The text of one decimal digit.
fn digit_text(d: u64) -> (t: &'static str)
    requires
        d < 10,
    ensures
        t@ == seq![digit_char(d as nat)],
{
    proof {
        reveal_strlit("0");
        reveal_strlit("1");
        reveal_strlit("2");
        reveal_strlit("3");
        reveal_strlit("4");
        reveal_strlit("5");
        reveal_strlit("6");
        reveal_strlit("7");
        reveal_strlit("8");
        reveal_strlit("9");
    }
    if d == 0 {
        "0"
    } else if d == 1 {
        "1"
    } else if d == 2 {
        "2"
    } else if d == 3 {
        "3"
    } else if d == 4 {
        "4"
    } else if d == 5 {
        "5"
    } else if d == 6 {
        "6"
    } else if d == 7 {
        "7"
    } else if d == 8 {
        "8"
    } else {
        "9"
    }
}

/// The decimal numeral of `n`.
pub fn decimal_text(n: u64) -> (t: String)
    ensures
        t@ == decimal(n as nat),
    decreases n,
{
    if n < 10 {
        digit_text(n).to_owned()
    } else {
        let mut t = decimal_text(n / 10);
        t.append(digit_text(n % 10));
        t
    }
}

/// The decimal numeral of `v`, with a `-` in front if it is negative.
pub fn signed_decimal_text(v: i32) -> (t: String)
    ensures
        t@ == signed_decimal(v as int),
{
    if v < 0 {
        let magnitude: u64 = (0i64 - (v as i64)) as u64;
        let mut t = String::new();
        proof {
            reveal_strlit("-");
        }
        t.append("-");
        let digits = decimal_text(magnitude);
        t.append(digits.as_str());
        t
    } else {
        decimal_text(v as u64)
    }
}

/// What setting up the posts directory does with what it finds there.
pub enum PostsSetup {
    /// The directory is empty: the example post is written into it.
    WriteExample,
    /// It already holds posts: they are gathered into the index page.
    Gather,
}

/// What setting up the posts directory does, given how many entries it holds:
/// an empty directory gets the example post, any other is gathered.
pub fn posts_setup(entries: usize) -> (s: PostsSetup)
    ensures
        s is WriteExample <==> entries == 0,
        s is Gather <==> entries > 0,
{
    if entries == 0 {
        PostsSetup::WriteExample
    } else {
        PostsSetup::Gather
    }
}

/// The path of a new post made at the given time: `./bin/posts/` and the year,
/// month, day, hour, minute and second in decimal, joined by `-`, then `.md`.
pub open spec fn post_file(
    year: int,
    month: nat,
    day: nat,
    hour: nat,
    minute: nat,
    second: nat,
) -> Seq<char> {
    "./bin/posts/"@ + signed_decimal(year) + "-"@ + decimal(month) + "-"@ + decimal(day) + "-"@
        + decimal(hour) + "-"@ + decimal(minute) + "-"@ + decimal(second) + ".md"@
}

/// The path of a post made at a given time is `./bin/posts/`, then fields
/// separated by `-` that read back, in order, as the year, month, day, hour,
/// minute and second, then `.md`.
pub proof fn lemma_post_file_fields(year: int, month: nat, day: nat, hour: nat, minute: nat, second: nat)
    ensures
        exists|y: Seq<char>, mo: Seq<char>, d: Seq<char>, h: Seq<char>, mi: Seq<char>, s: Seq<char>|
            #![trigger reads_as_signed(y, year), reads_as(mo, month), reads_as(d, day), reads_as(h, hour), reads_as(mi, minute), reads_as(s, second)]
            {
                &&& post_file(year, month, day, hour, minute, second) == "./bin/posts/"@ + y + "-"@ + mo
                    + "-"@ + d + "-"@ + h + "-"@ + mi + "-"@ + s + ".md"@
                &&& reads_as_signed(y, year)
                &&& reads_as(mo, month)
                &&& reads_as(d, day)
                &&& reads_as(h, hour)
                &&& reads_as(mi, minute)
                &&& reads_as(s, second)
            },
{
    lemma_signed_decimal_reads_back(year);
    lemma_decimal_reads_back(month);
    lemma_decimal_reads_back(day);
    lemma_decimal_reads_back(hour);
    lemma_decimal_reads_back(minute);
    lemma_decimal_reads_back(second);
    let y = signed_decimal(year);
    let mo = decimal(month);
    let d = decimal(day);
    let h = decimal(hour);
    let mi = decimal(minute);
    let s = decimal(second);
    assert(reads_as_signed(y, year) && reads_as(mo, month) && reads_as(d, day) && reads_as(h, hour)
        && reads_as(mi, minute) && reads_as(s, second));
}

/// The path of a new post made at the given time.
pub fn post_path(year: i32, month: u32, day: u32, hour: u32, minute: u32, second: u32) -> (p:
    String)
    ensures
        p@ == post_file(
            year as int,
            month as nat,
            day as nat,
            hour as nat,
            minute as nat,
            second as nat,
        ),
{
    proof {
        reveal_strlit("./bin/posts/");
        reveal_strlit("-");
        reveal_strlit(".md");
    }
    let mut p = String::new();
    p.append("./bin/posts/");
    let y = signed_decimal_text(year);
    p.append(y.as_str());
    p.append("-");
    let mo = decimal_text(month as u64);
    p.append(mo.as_str());
    p.append("-");
    let d = decimal_text(day as u64);
    p.append(d.as_str());
    p.append("-");
    let h = decimal_text(hour as u64);
    p.append(h.as_str());
    p.append("-");
    let mi = decimal_text(minute as u64);
    p.append(mi.as_str());
    p.append("-");
    let s = decimal_text(second as u64);
    p.append(s.as_str());
    p.append(".md");
    p
}

/// What is read of the `type` of a seed.
pub open spec fn seed_type(seed: JsonNode) -> JsonFactsView {
    facts_of(member(Some(seed), "type"@))
}

/// What is read of the entry `name` of the `vars` of a seed.
pub open spec fn seed_var(seed: JsonNode, name: Seq<char>) -> JsonFactsView {
    facts_of(member(member(Some(seed), "vars"@), name))
}

/// A seed with no `type` member reads as untyped: its type reads as empty and
/// null, with the JSON text `null`, as every missing value does.
pub proof fn lemma_seed_without_type(seed: JsonNode)
    requires
        seed.kind matches JsonKind::Object(entries) ==> forall|i: int|
            0 <= i < entries@.len() ==> #[trigger] entries@[i].0@ != "type"@,
    ensures
        seed_type(seed) == (true, true, "null"@),
        seed_type(seed).0 || seed_type(seed).1,
        !is_blog(seed_type(seed)),
{
    if let JsonKind::Object(entries) = seed.kind {
        lemma_find_member_absent(entries@, "type"@);
    }
}

/// A seed whose `type` member is null reads as untyped; one whose `type` is a
/// string that is not empty reads as typed, with the member's JSON text.
pub proof fn lemma_seed_type_member(seed: JsonNode, i: int)
    requires
        seed.kind matches JsonKind::Object(entries) && 0 <= i < entries@.len() && entries@[i].0@ == "type"@
            && forall|j: int| 0 <= j < i ==> #[trigger] entries@[j].0@ != "type"@,
    ensures
        seed.kind matches JsonKind::Object(entries) && ({
            let v = entries@[i].1;
            &&& v.kind is Null ==> seed_type(seed).0 && seed_type(seed).1
            &&& (v.kind matches JsonKind::Str(t) && t@.len() > 0) ==> !seed_type(seed).0 && !seed_type(seed).1
            &&& seed_type(seed).2 == v.dump@
        }),
{
    if let JsonKind::Object(entries) = seed.kind {
        lemma_find_member_first(entries@, "type"@, i);
    }
}

/// What is read of the `type` of a parsed seed.
fn seed_type_facts(seed: &JsonNode) -> (f: JsonFacts)
    ensures
        f@ == seed_type(*seed),
{
    facts(member_of(Some(seed), "type"))
}

/// Whether the seed file that reads `text` is a blog's; the parser's error
/// where the text is no JSON.
pub fn seed_is_blog(text: &str) -> (res: Result<bool, JsonError>)
    ensures
        res is Ok <==> parsed_json(text@) is Some,
        res matches Ok(b) ==> b == is_blog(seed_type(parsed_json(text@)->0)),
{
    match read_json(text) {
        Ok(seed) => {
            let kind = seed_type_facts(&seed);
            Ok(is_blog_type(&kind))
        },
        Err(e) => Err(e),
    }
}

/// What a build makes of a project by the type of its seed.
pub enum SeedKind {
    /// The type is empty or null: the seed must be filled in first.
    Untyped,
    /// The seed is a blog's.
    Blog,
    /// Any other type, which the build leaves alone.
    Other,
}

/// The kind of the seed file that reads `text`; the parser's error where the
/// text is no JSON.
pub fn seed_kind(text: &str) -> (res: Result<SeedKind, JsonError>)
    ensures
        res is Ok <==> parsed_json(text@) is Some,
        res matches Ok(k) ==> ({
            let t = seed_type(parsed_json(text@)->0);
            if t.0 || t.1 {
                k is Untyped
            } else if is_blog(t) {
                k is Blog
            } else {
                k is Other
            }
        }),
{
    let seed = match read_json(text) {
        Ok(s) => s,
        Err(e) => {
            return Err(e);
        },
    };
    let kind = seed_type_facts(&seed);
    if kind.is_empty || kind.is_null {
        Ok(SeedKind::Untyped)
    } else if is_blog_type(&kind) {
        Ok(SeedKind::Blog)
    } else {
        Ok(SeedKind::Other)
    }
}

} // verus!
