use vstd::prelude::*;
use vstd::string::StrSliceExecFns;
use vstd::string::StringExecFns;

use crate::cli::ask::{parse_usize, parse_usize_spec};
use scraper::{Html, Selector};

verus! {

/// The `href` and `sizes` attributes of an element, where it has them.
#[derive(Debug)]
pub struct IconLink {
    pub href: Option<String>,
    pub sizes: Option<String>,
}

/// An attribute by its characters.
pub open spec fn attr_view(a: Option<String>) -> Option<Seq<char>> {
    match a {
        Some(s) => Some(s@),
        None => None,
    }
}

/// Links by their attributes' characters.
pub open spec fn links_view(links: Seq<IconLink>) -> Seq<(Option<Seq<char>>, Option<Seq<char>>)> {
    links.map_values(|l: IconLink| (attr_view(l.href), attr_view(l.sizes)))
}

/// The `href` and `sizes` attributes of the elements of the HTML document
/// `text` that match the CSS selector `selector`, in document order.
pub uninterp spec fn selected_links(text: Seq<char>, selector: Seq<char>) -> Seq<(Option<Seq<char>>, Option<Seq<char>>)>;

/// `scraper::Html::parse_document` on `text`, then `scraper::Html::select`
/// with the selector that `scraper::Selector::parse` reads from `selector`,
/// and `scraper::ElementRef::attr` for `href` and `sizes` on each match. A
/// selector that does not parse matches nothing. The result is named.
#[verifier::external_body]
fn select_links(text: &str, selector: &str) -> (links: Vec<IconLink>)
    ensures
        links_view(links@) == selected_links(text@, selector@),
{
    let html = Html::parse_document(text);
    match Selector::parse(selector) {
        Ok(selector) => html.select(&selector).map(|e| IconLink {
            href: e.attr("href").map(String::from),
            sizes: e.attr("sizes").map(String::from),
        }).collect(),
        Err(_) => Vec::new(),
    }
}

/// What comes before the first `x` of `s` (all of it if there is none).
pub open spec fn before_x(s: Seq<char>) -> Seq<char>
    decreases s.len(),
{
    if s.len() == 0 {
        s
    } else if s[0] == 'x' {
        Seq::empty()
    } else {
        seq![s[0]] + before_x(s.drop_first())
    }
}

/// The icon size a `sizes` attribute gives: the width before the `x`.
pub open spec fn icon_size(sizes: Seq<char>) -> Option<usize> {
    parse_usize_spec(before_x(sizes))
}

/// The choice after the first `k` links: the largest size seen, and the
/// chosen `href`. A link without `href` is skipped. A link without `sizes`
/// is taken only if nothing was chosen yet; one whose size does not parse
/// is skipped; one larger than every size seen so far is taken.
pub open spec fn scan_links(links: Seq<(Option<Seq<char>>, Option<Seq<char>>)>, k: nat) -> (usize, Option<Seq<char>>)
    decreases k,
{
    if k == 0 || k > links.len() {
        (0, None)
    } else {
        let (largest, chosen) = scan_links(links, (k - 1) as nat);
        match links[k - 1] {
            (None, _) => (largest, chosen),
            (Some(href), None) => (largest, if chosen is None {
                Some(href)
            } else {
                chosen
            }),
            (Some(href), Some(sizes)) => match icon_size(sizes) {
                Some(size) => if size > largest {
                    (size, Some(href))
                } else {
                    (largest, chosen)
                },
                None => (largest, chosen),
            },
        }
    }
}

/// The icon chosen among the links that one selector matched.
pub open spec fn best_link(links: Seq<(Option<Seq<char>>, Option<Seq<char>>)>) -> Option<Seq<char>> {
    scan_links(links, links.len()).1
}

/// The selectors of icon links, tried in order.
pub open spec fn icon_selectors() -> Seq<Seq<char>> {
    seq!["link[rel=\"icon\"]"@, "link[rel=\"shortcut icon\"]"@]
}

/// The icon a document names: the best link for the first selector that
/// finds one.
pub open spec fn document_icon(text: Seq<char>) -> Option<Seq<char>> {
    match best_link(selected_links(text, icon_selectors()[0])) {
        Some(href) => Some(href),
        None => best_link(selected_links(text, icon_selectors()[1])),
    }
}

/// Where the favicon of the site at `root` is, given the icon its home page
/// names, if any: a path from the site's root is resolved against `root`
/// (but not a protocol-relative `//` URL); anything else is taken as it is;
/// without an icon, `root` followed by `/favicon.ico`.
pub open spec fn favicon_url_spec(root: Seq<char>, found: Option<Seq<char>>) -> Seq<char> {
    match found {
        Some(href) => if !(href.len() >= 2 && href[0] == '/' && href[1] == '/') && href.len() >= 1
            && href[0] == '/' {
            root + href
        } else {
            href
        },
        None => root + "/favicon.ico"@,
    }
}

/// The text of `s` before its first `x`.
pub fn text_before_x(s: &str) -> (prefix: &str)
    ensures
        prefix@ == before_x(s@),
{
    let n = s.unicode_len();
    let mut i: usize = 0;
    while i < n
        invariant
            n == s@.len(),
            0 <= i <= n,
            forall|k: int| 0 <= k < i ==> s@[k] != 'x',
        ensures
            0 <= i <= n,
            forall|k: int| 0 <= k < i ==> s@[k] != 'x',
            i < n ==> s@[i as int] == 'x',
        decreases n - i,
    {
        if s.get_char(i) == 'x' {
            break;
        }
        i += 1;
    }
    proof {
        lemma_before_x(s@, i as int);
    }
    s.substring_char(0, i)
}

proof fn lemma_before_x(s: Seq<char>, i: int)
    requires
        0 <= i <= s.len(),
        forall|k: int| 0 <= k < i ==> s[k] != 'x',
        i < s.len() ==> s[i] == 'x',
    ensures
        before_x(s) == s.subrange(0, i),
    decreases s.len(),
{
    if s.len() == 0 {
        assert(s.subrange(0, i) =~= s);
    } else if i == 0 {
        assert(s.subrange(0, 0) =~= Seq::<char>::empty());
    } else {
        lemma_before_x(s.drop_first(), i - 1);
        assert(s.subrange(0, i) =~= seq![s[0]] + s.drop_first().subrange(0, i - 1));
    }
}

/// The icon chosen among the links that one selector matched (see
/// `scan_links`).
pub fn pick_icon(links: &Vec<IconLink>) -> (chosen: Option<String>)
    ensures
        attr_view(chosen) == best_link(links_view(links@)),
{
    let ghost view = links_view(links@);
    let mut largest: usize = 0;
    let mut chosen: Option<String> = None;
    let mut i: usize = 0;
    while i < links.len()
        invariant
            0 <= i <= links@.len(),
            view == links_view(links@),
            view.len() == links@.len(),
            (largest, attr_view(chosen)) == scan_links(view, i as nat),
        decreases links@.len() - i,
    {
        let link = &links[i];
        proof {
            assert(view[i as int] == (attr_view(link.href), attr_view(link.sizes)));
        }
        match &link.href {
            None => {},
            Some(href) => match &link.sizes {
                None => {
                    if chosen.is_none() {
                        chosen = Some(href.clone());
                    }
                },
                Some(sizes) => {
                    let size = parse_usize(text_before_x(sizes.as_str()));
                    match size {
                        Some(size) => {
                            if size > largest {
                                largest = size;
                                chosen = Some(href.clone());
                            }
                        },
                        None => {},
                    }
                },
            },
        }
        i += 1;
    }
    chosen
}

/// Finds favicons of linked sites.
pub struct Favicons {
    selectors: Vec<&'static str>,
}

impl Favicons {
    pub closed spec fn selectors(&self) -> Seq<Seq<char>> {
        self.selectors@.map_values(|s: &'static str| s@)
    }

    pub fn new() -> (favicons: Self)
        ensures
            favicons.selectors() == icon_selectors(),
    {
        let mut selectors = Vec::new();
        selectors.push("link[rel=\"icon\"]");
        selectors.push("link[rel=\"shortcut icon\"]");
        let favicons = Favicons { selectors };
        proof {
            assert(favicons.selectors() =~= icon_selectors());
        }
        favicons
    }

    /// The icon that the HTML page `text` names (see `document_icon`).
    pub fn check_html(&self, text: &str) -> (icon: Option<String>)
        requires
            self.selectors() == icon_selectors(),
        ensures
            attr_view(icon) == document_icon(text@),
    {
        let mut i: usize = 0;
        proof {
            assert(self.selectors().len() == self.selectors@.len());
        }
        while i < self.selectors.len()
            invariant
                self.selectors() == icon_selectors(),
                self.selectors@.len() == 2,
                0 <= i <= 2,
                i >= 1 ==> best_link(selected_links(text@, icon_selectors()[0])) is None,
                i >= 2 ==> best_link(selected_links(text@, icon_selectors()[1])) is None,
            decreases 2 - i,
        {
            let selector = self.selectors[i];
            proof {
                assert(selector@ == self.selectors()[i as int]);
            }
            let links = select_links(text, selector);
            let found = pick_icon(&links);
            if found.is_some() {
                return found;
            }
            i += 1;
        }
        None
    }

    /// Where the favicon of the site at `root` is, given the icon its home
    /// page names, if any (see `favicon_url_spec`).
    pub fn get_favicon_url(root: &str, found: Option<String>) -> (url: String)
        ensures
            url@ == favicon_url_spec(root@, attr_view(found)),
    {
        match found {
            Some(favicon) => {
                let n = favicon.as_str().unicode_len();
                let protocol_relative = n >= 2 && favicon.as_str().get_char(0) == '/'
                    && favicon.as_str().get_char(1) == '/';
                if !protocol_relative && n >= 1 && favicon.as_str().get_char(0) == '/' {
                    String::from_str(root).concat(favicon.as_str())
                } else {
                    favicon
                }
            },
            None => String::from_str(root).concat("/favicon.ico"),
        }
    }
}

} // verus!
