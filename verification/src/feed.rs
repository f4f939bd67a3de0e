//! The feed entry formatter: one post's metadata, together with whatever the
//! content store handed back for it, becomes one syndication-entry fragment.
//!
//! The body is re-parsed and rendered per entry; a file that cannot be read
//! or parsed degrades to a fixed placeholder string instead of failing the
//! entry, so one broken post never breaks the feed.
use vstd::prelude::*;

use crate::frontmatter::FrontMatter;
use crate::frontmatter::FrontMatterView;
use crate::frontmatter::FrontmatterError;
use crate::frontmatter::decode_header_spec;
use crate::frontmatter::deserialize_frontmatter;
use crate::frontmatter::has_leading_delim;
use crate::frontmatter::split_spec;
use crate::trusted;

verus! {

/// The title with underscores shown as spaces; only the display field of an
/// entry uses this, the URL-bearing fields keep the raw title.
pub open spec fn spaced(t: Seq<char>) -> Seq<char> {
    t.map_values(|c: char| if c == '_' { ' ' } else { c })
}

/// The fixed base of every post URL.
pub open spec fn base_url() -> Seq<char> {
    "https://mhbtech.dev/blog"@
}

/// The fixed string shown for a post whose content cannot be loaded.
pub open spec fn placeholder() -> Seq<char> {
    "Unable to load post."@
}

/// The text a content render works on: what the store handed back, or the
/// placeholder when it handed back nothing.
pub open spec fn loaded_text(loaded: Option<Seq<char>>) -> Seq<char> {
    match loaded {
        Some(s) => s,
        None => placeholder(),
    }
}

/// What loading a post's content yields: the rendered HTML of the body when
/// the store handed text back and that text parses, `None` otherwise.  A
/// store failure substitutes the placeholder, which parses as no post does.
pub open spec fn get_content_spec(loaded: Option<Seq<char>>) -> Option<Seq<char>> {
    match split_spec(loaded_text(loaded)) {
        None => None,
        Some((h, b)) => if decode_header_spec(h) is Some {
            Some(trusted::html_of(b))
        } else {
            None
        },
    }
}

/// The exact syndication-entry fragment for a record and its loaded
/// content; `None` content falls back to the placeholder.
pub open spec fn feed_entry_spec(fm: FrontMatterView, content: Option<Seq<char>>) -> Seq<char> {
    let c = match content {
        Some(h) => h,
        None => placeholder(),
    };
    "<entry><title>"@ + spaced(fm.title) + "</title><description>"@ + fm.description
        + "</description><link rel=\"alternate\" href=\""@ + base_url() + "/"@ + fm.title
        + "\" type=\"text/html\" title=\""@ + fm.title + "\"/><published>"@
        + trusted::datetime_str_of(fm.date.secs, fm.date.nanos) + "</published><id>"@
        + trusted::uuid_str_of(fm.id) + "</id><content type=\"html\" xml:base=\""@ + base_url()
        + "/"@ + fm.title + "\">"@ + c + "</content><author><name>botnus</name></author></entry>"@
}

/// Renders the title for display, underscores as spaces.
pub fn spaced_title(t: &str) -> (r: String)
    ensures
        r@ == spaced(t@),
{
    let n = t.unicode_len();
    let mut out = String::new();
    proof {
        assert(out@ =~= spaced(t@.subrange(0, 0)));
    }
    let mut i: usize = 0;
    while i < n
        invariant
            i <= n,
            n == t@.len(),
            out@ == spaced(t@.subrange(0, i as int)),
        decreases n - i,
    {
        let c = t.get_char(i);
        if c == '_' {
            out.append(" ");
        } else {
            let piece = t.substring_char(i, i + 1);
            out.append(piece);
        }
        proof {
            assert(t@.subrange(i as int, i + 1) =~= seq![t@[i as int]]);
            assert(out@ =~= spaced(t@.subrange(0, i + 1))) by {
                assert(spaced(t@.subrange(0, i + 1)) =~= spaced(t@.subrange(0, i as int)).push(
                    if t@[i as int] == '_' {
                        ' '
                    } else {
                        t@[i as int]
                    },
                ));
                if c == '_' {
                    reveal_strlit(" ");
                }
            }
        }
        i = i + 1;
    }
    proof {
        assert(t@.subrange(0, n as int) =~= t@);
    }
    out
}

impl FrontMatter {
    /// The rendered HTML of this post's body, from whatever the content
    /// store handed back (`None` when the file could not be read).  Fails
    /// when the text, or the placeholder substituted for it, does not parse.
    pub fn get_content(&self, loaded: Option<String>) -> (r: Result<String, FrontmatterError>)
        ensures
            match get_content_spec(loaded.deep_view()) {
                Some(h) => r matches Ok(s) && s@ == h,
                None => r is Err,
            },
            r matches Err(FrontmatterError::MissingHeader) <==> split_spec(
                loaded_text(loaded.deep_view()),
            ) is None,
    {
        let md: String = match loaded {
            Some(s) => s,
            None => "Unable to load post.".to_owned(),
        };
        match deserialize_frontmatter(md.as_str()) {
            Ok((_meta, body)) => Ok(trusted::markdown_html(body.as_str())),
            Err(e) => Err(e),
        }
    }

    /// Formats this post as one syndication-entry fragment, substituting
    /// the placeholder for content that cannot be loaded or parsed.
    pub fn to_feed_entry(&self, loaded: Option<String>) -> (r: String)
        ensures
            r@ == feed_entry_spec(self@, get_content_spec(loaded.deep_view())),
    {
        let ghost spec_content = get_content_spec(loaded.deep_view());
        let content: String = match self.get_content(loaded) {
            Ok(h) => h,
            Err(_) => "Unable to load post.".to_owned(),
        };
        let title_display = spaced_title(self.title.as_str());
        let published = trusted::format_timestamp(&self.date);
        let id_text = trusted::format_uuid(self.id);
        let mut out = "<entry><title>".to_owned();
        out.append(title_display.as_str());
        out.append("</title><description>");
        out.append(self.description.as_str());
        out.append("</description><link rel=\"alternate\" href=\"");
        out.append("https://mhbtech.dev/blog");
        out.append("/");
        out.append(self.title.as_str());
        out.append("\" type=\"text/html\" title=\"");
        out.append(self.title.as_str());
        out.append("\"/><published>");
        out.append(published.as_str());
        out.append("</published><id>");
        out.append(id_text.as_str());
        out.append("</id><content type=\"html\" xml:base=\"");
        out.append("https://mhbtech.dev/blog");
        out.append("/");
        out.append(self.title.as_str());
        out.append("\">");
        out.append(content.as_str());
        out.append("</content><author><name>botnus</name></author></entry>");
        proof {
            assert(out@ =~= feed_entry_spec(self@, spec_content));
        }
        out
    }
}

/// A store failure always degrades to the placeholder: the substituted text
/// lacks the leading delimiter, so no content is recovered and the entry
/// falls back to the fixed string.
pub proof fn lemma_feed_degradation()
    ensures
        get_content_spec(None) is None,
{
    reveal_strlit("Unable to load post.");
    assert(placeholder()[0] == 'U');
    assert(!has_leading_delim(placeholder())) by {
        if has_leading_delim(placeholder()) {
            assert(placeholder().subrange(0, 3)[0] == '+');
        }
    }
}

} // verus!
