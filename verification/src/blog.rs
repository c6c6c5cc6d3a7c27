//! The index page of the older blog workflow: each post rendered from Markdown
//! into an article, all articles in one page under the seed's metadata.
use vstd::prelude::*;
use pulldown_cmark::{Options, Parser};
use crate::init::{JsonFacts, JsonFactsView, decimal, decimal_text, seed_var, reads_as, lemma_decimal_reads_back};
use crate::text::{contains_text, lemma_contains_between};
use crate::jsondoc::{facts, member_of, read_json, parsed_json, JsonError};

verus! {

/// The HTML that `pulldown_cmark::html::push_html` writes for the events of
/// `Parser::new_ext` on the Markdown text `md`, with the strikethrough
/// extension as given and no other option.
pub uninterp spec fn cmark_html(md: Seq<char>, strikethrough: bool) -> Seq<char>;

/// `Parser::new_ext` on `md`, with the strikethrough extension as given and no
/// other option, its events written by `html::push_html` into a new string.
/// The HTML depends on the arguments alone; it is named, not described.
#[verifier::external_body]
fn cmark_to_html(md: &str, strikethrough: bool) -> (html: String)
    ensures
        html@ == cmark_html(md@, strikethrough),
{
    let mut options = Options::empty();
    options.set(Options::ENABLE_STRIKETHROUGH, strikethrough);
    let mut html = String::new();
    pulldown_cmark::html::push_html(&mut html, Parser::new_ext(md, options));
    html
}

/// Renders the Markdown post `file`, with strikethrough, to HTML and adds the HTML to `posts`.
pub fn md_html(file: &str, posts: &mut Vec<String>)
    ensures
        final(posts)@.len() == old(posts)@.len() + 1,
        final(posts)@.drop_last() == old(posts)@,
        final(posts)@.last()@ == cmark_html(file@, true),
{
    let html = cmark_to_html(file, true);
    posts.push(html);
}

/// The start of the index page, up to the description.
pub const HEAD: &'static str = "<!DOCTYPE html>\n        <html lang=\"en\">\n        <head>\n            <meta charset=\"UTF-8\">\n            <meta http-equiv=\"X-UA-Compatible\" content=\"IE=edge\">\n            <meta name=\"viewport\" content=\"width=device-width, initial-scale=1.0\">\n            <meta name=\"description\" content=";

/// What opens the title of the index page.
pub const TITLE_OPEN: &'static str = "\n        <title>\n            ";

/// What closes the title and the head of the index page.
pub const TITLE_CLOSE: &'static str = "\n        </title>\n        </head>\n        <body>";

/// What stands for a missing value in the head of the index page.
pub const EMPTY_VALUE: &'static str = "\"\"";

/// What opens the author of the index page.
pub const AUTHOR_OPEN: &'static str = "<meta name=\"author\" content=";

/// The end of the index page.
pub const FOOT: &'static str = "<footer></footer>\n</body>\n</html>";

/// Whether a value of the seed is shown in the index page: it is unless it is both empty and null.
pub open spec fn shown(v: JsonFactsView) -> bool {
    !v.0 || !v.1
}

/// The articles of the index page, numbered from 0 in order.
pub open spec fn articles_html(posts: Seq<Seq<char>>) -> Seq<char>
    decreases posts.len(),
{
    if posts.len() == 0 {
        seq![]
    } else {
        articles_html(posts.drop_last()) + "<article id =\""@ + decimal((posts.len() - 1) as nat)
            + "\">\n"@ + posts.last() + "</article>"@
    }
}

/// The index page of a blog with the given description, author and title of
/// the seed and the given post HTML. The author is shown when the description
/// is, and the empty value stands in for both when it is not.
pub open spec fn blog_index(
    description: JsonFactsView,
    author: JsonFactsView,
    title: JsonFactsView,
    posts: Seq<Seq<char>>,
) -> Seq<char> {
    HEAD@ + (if shown(description) {
        description.2
    } else {
        EMPTY_VALUE@
    }) + ">"@ + (if shown(description) {
        AUTHOR_OPEN@ + author.2
    } else {
        EMPTY_VALUE@
    }) + ">"@ + TITLE_OPEN@ + (if shown(title) {
        title.2
    } else {
        seq![]
    }) + TITLE_CLOSE@ + articles_html(posts) + FOOT@
}

/// The articles of the first posts open the articles of all posts.
proof fn lemma_articles_prefix(posts: Seq<Seq<char>>, m: int)
    requires
        0 <= m <= posts.len(),
    ensures
        articles_html(posts.take(m)).is_prefix_of(articles_html(posts)),
    decreases posts.len(),
{
    if m == posts.len() {
        assert(posts.take(m) =~= posts);
    } else {
        lemma_articles_prefix(posts.drop_last(), m);
        assert(posts.drop_last().take(m) =~= posts.take(m));
    }
}

/// Each post stands in the index page in an article of its own, whose id is
/// the post's place in the list counted from 0, written in decimal; no two
/// posts get the same id.
pub proof fn lemma_articles_numbered(
    description: JsonFactsView,
    author: JsonFactsView,
    title: JsonFactsView,
    posts: Seq<Seq<char>>,
    k: int,
)
    requires
        0 <= k < posts.len(),
    ensures
        contains_text(
            blog_index(description, author, title, posts),
            "<article id =\""@ + decimal(k as nat) + "\">\n"@ + posts[k] + "</article>"@,
        ),
        reads_as(decimal(k as nat), k as nat),
        forall|j: int| 0 <= j < posts.len() && j != k ==> #[trigger] decimal(j as nat) != decimal(k as nat),
{
    let piece = "<article id =\""@ + decimal(k as nat) + "\">\n"@ + posts[k] + "</article>"@;
    let upto = posts.take(k + 1);
    assert(upto.drop_last() =~= posts.take(k));
    assert(upto.last() == posts[k]);
    assert(articles_html(upto) =~= articles_html(posts.take(k)) + piece);
    lemma_articles_prefix(posts, k + 1);
    let all = articles_html(posts);
    let rest = all.skip(articles_html(upto).len() as int);
    assert(all =~= articles_html(upto) + rest);
    let page = blog_index(description, author, title, posts);
    let front = page.take(page.len() - all.len() - FOOT@.len());
    assert(page =~= front + all + FOOT@);
    assert(page =~= (front + articles_html(posts.take(k))) + piece + (rest + FOOT@));
    lemma_contains_between(front + articles_html(posts.take(k)), piece, rest + FOOT@);
    lemma_decimal_reads_back(k as nat);
    assert forall|j: int| 0 <= j < posts.len() && j != k implies #[trigger] decimal(j as nat) != decimal(k as nat) by {
        lemma_decimal_reads_back(j as nat);
    }
}

/// The articles stand in the order of the posts, one right after the other:
/// the article of each post is followed at once by that of the next.
pub proof fn lemma_articles_in_order(
    description: JsonFactsView,
    author: JsonFactsView,
    title: JsonFactsView,
    posts: Seq<Seq<char>>,
    k: int,
)
    requires
        0 <= k && k + 1 < posts.len(),
    ensures
        contains_text(
            blog_index(description, author, title, posts),
            "<article id =\""@ + decimal(k as nat) + "\">\n"@ + posts[k] + "</article>"@
                + "<article id =\""@ + decimal((k + 1) as nat) + "\">\n"@ + posts[k + 1] + "</article>"@,
        ),
{
    let a0 = "<article id =\""@ + decimal(k as nat) + "\">\n"@ + posts[k] + "</article>"@;
    let a1 = "<article id =\""@ + decimal((k + 1) as nat) + "\">\n"@ + posts[k + 1] + "</article>"@;
    let up1 = posts.take(k + 1);
    let up2 = posts.take(k + 2);
    assert(up1.drop_last() =~= posts.take(k));
    assert(up1.last() == posts[k]);
    assert(up2.drop_last() =~= up1);
    assert(up2.last() == posts[k + 1]);
    assert(up1.len() == k + 1 && up2.len() == k + 2);
    assert(articles_html(up1) == articles_html(posts.take(k)) + a0);
    assert(articles_html(up2) == articles_html(up1) + a1);
    assert(articles_html(up2) =~= articles_html(posts.take(k)) + (a0 + a1));
    lemma_articles_prefix(posts, k + 2);
    let all = articles_html(posts);
    let rest = all.skip(articles_html(up2).len() as int);
    assert(all =~= articles_html(up2) + rest);
    let page = blog_index(description, author, title, posts);
    let front = page.take(page.len() - all.len() - FOOT@.len());
    assert(page =~= front + all + FOOT@);
    assert(page =~= (front + articles_html(posts.take(k))) + (a0 + a1) + (rest + FOOT@));
    lemma_contains_between(front + articles_html(posts.take(k)), a0 + a1, rest + FOOT@);
    assert(a0 + a1 =~= "<article id =\""@ + decimal(k as nat) + "\">\n"@ + posts[k] + "</article>"@
        + "<article id =\""@ + decimal((k + 1) as nat) + "\">\n"@ + posts[k + 1] + "</article>"@);
}

/// The title of the index page is the JSON text of the seed's title, whatever
/// the description and author are, unless the title is both empty and null;
/// then the title is left blank.
pub proof fn lemma_index_title(
    description: JsonFactsView,
    author: JsonFactsView,
    title: JsonFactsView,
    posts: Seq<Seq<char>>,
)
    ensures
        !(title.0 && title.1) ==> contains_text(
            blog_index(description, author, title, posts),
            TITLE_OPEN@ + title.2 + TITLE_CLOSE@,
        ),
        title.0 && title.1 ==> contains_text(
            blog_index(description, author, title, posts),
            TITLE_OPEN@ + TITLE_CLOSE@,
        ),
{
    let page = blog_index(description, author, title, posts);
    let shown_title = if !(title.0 && title.1) { title.2 } else { seq![] };
    let piece = TITLE_OPEN@ + shown_title + TITLE_CLOSE@;
    let tail = articles_html(posts) + FOOT@;
    let front = page.take(page.len() - piece.len() - tail.len());
    assert(page =~= front + piece + tail);
    lemma_contains_between(front, piece, tail);
    assert(TITLE_OPEN@ + seq![] + TITLE_CLOSE@ =~= TITLE_OPEN@ + TITLE_CLOSE@);
}

/// The head of the index page gives the seed's description and author, as
/// their JSON texts, unless the description is both empty and null; then both
/// are given as the empty value.
pub proof fn lemma_index_description_author(
    description: JsonFactsView,
    author: JsonFactsView,
    title: JsonFactsView,
    posts: Seq<Seq<char>>,
)
    ensures
        blog_index(description, author, title, posts).take(HEAD@.len() as int) == HEAD@,
        !(description.0 && description.1) ==> contains_text(
            blog_index(description, author, title, posts),
            HEAD@ + description.2 + ">"@ + AUTHOR_OPEN@ + author.2 + ">"@ + TITLE_OPEN@,
        ),
        description.0 && description.1 ==> contains_text(
            blog_index(description, author, title, posts),
            HEAD@ + EMPTY_VALUE@ + ">"@ + EMPTY_VALUE@ + ">"@ + TITLE_OPEN@,
        ),
{
    let page = blog_index(description, author, title, posts);
    let head = if !(description.0 && description.1) {
        HEAD@ + description.2 + ">"@ + AUTHOR_OPEN@ + author.2 + ">"@ + TITLE_OPEN@
    } else {
        HEAD@ + EMPTY_VALUE@ + ">"@ + EMPTY_VALUE@ + ">"@ + TITLE_OPEN@
    };
    let rest = page.skip(head.len() as int);
    assert(page =~= seq![] + head + rest);
    lemma_contains_between(seq![], head, rest);
    assert(page.take(HEAD@.len() as int) =~= HEAD@);
}

/// The index page of a blog.
pub fn blog_index_html(
    description: &JsonFacts,
    author: &JsonFacts,
    title: &JsonFacts,
    posts: &Vec<String>,
) -> (page: String)
    ensures
        page@ == blog_index(description@, author@, title@, posts@.map_values(|p: String| p@)),
{
    let ghost all = posts@.map_values(|p: String| p@);
    let mut page = String::new();
    page.append(HEAD);
    if !description.is_empty || !description.is_null {
        page.append(description.dump.as_str());
    } else {
        page.append(EMPTY_VALUE);
    }
    page.append(">");
    if !description.is_empty || !description.is_null {
        page.append(AUTHOR_OPEN);
        page.append(author.dump.as_str());
    } else {
        page.append(EMPTY_VALUE);
    }
    page.append(">");
    page.append(TITLE_OPEN);
    if !title.is_empty || !title.is_null {
        page.append(title.dump.as_str());
    }
    page.append(TITLE_CLOSE);
    let ghost front = page@;
    assert(all.take(0) =~= Seq::<Seq<char>>::empty());
    let mut i: usize = 0;
    while i < posts.len()
        invariant
            i <= posts@.len(),
            all == posts@.map_values(|p: String| p@),
            page@ == front + articles_html(all.take(i as int)),
        decreases posts@.len() - i,
    {
        proof {
            reveal_strlit("<article id =\"");
            reveal_strlit("\">\n");
            reveal_strlit("</article>");
        }
        page.append("<article id =\"");
        let number = decimal_text(i as u64);
        page.append(number.as_str());
        page.append("\">\n");
        page.append(posts[i].as_str());
        page.append("</article>");
        proof {
            let done = all.take(i + 1);
            assert(done.drop_last() =~= all.take(i as int));
            assert(done.last() == posts@[i as int]@);
        }
        i = i + 1;
    }
    assert(all.take(i as int) =~= all);
    page.append(FOOT);
    page
}

/// The index page of the blog whose seed file reads `seed_text`, with the
/// given post HTML: the `description`, `author` and `title` of the seed's
/// `vars` go into its head. The parser's error where the seed is no JSON.
pub fn seed_blog_index(seed_text: &str, posts: &Vec<String>) -> (res: Result<String, JsonError>)
    ensures
        res is Ok <==> parsed_json(seed_text@) is Some,
        res matches Ok(page) ==> ({
            let seed = parsed_json(seed_text@)->0;
            page@ == blog_index(
                seed_var(seed, "description"@),
                seed_var(seed, "author"@),
                seed_var(seed, "title"@),
                posts@.map_values(|p: String| p@),
            )
        }),
{
    let seed = match read_json(seed_text) {
        Ok(s) => s,
        Err(e) => {
            return Err(e);
        },
    };
    let vars = member_of(Some(&seed), "vars");
    let description = facts(member_of(vars, "description"));
    let author = facts(member_of(vars, "author"));
    let title = facts(member_of(vars, "title"));
    Ok(blog_index_html(&description, &author, &title, posts))
}

} // verus!
