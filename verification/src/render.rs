//! Rendering an HTML response page for the terminal: the primary content
//! region's text, with each non-empty link label rewritten as a numbered
//! inline reference, followed by a footnote list resolving every reference
//! to an absolute URL. Only locating the region and collecting the links is
//! handed to the HTML parser; everything after that is verified text work.

use vstd::prelude::*;
use vstd::string::StringExecFns;
use crate::error::Error;
use crate::text::{
    spec_dec, spec_replace_all, spec_trim, spec_starts_with, u64_to_string, str_to_chars,
    chars_to_string, replace_all, trim_chars, starts_with_chars,
};
use crate::web::spec_origin;

verus! {

/// What the HTML parser finds in a response page: the first `main` element's
/// inner text together with the (href, label) pairs of its `a[href]`
/// descendants in document order, or nothing when the page cannot be parsed
/// or holds no `main` element. The result depends on the page text alone.
pub uninterp spec fn html_main(html: Seq<char>) -> Option<(Seq<char>, Seq<(Seq<char>, Seq<char>)>)>;

/// The character view of extracted link pairs.
pub open spec fn pairs_view(v: Seq<(String, String)>) -> Seq<(Seq<char>, Seq<char>)> {
    v.map_values(|p: (String, String)| (p.0@, p.1@))
}

/// Relies on tl's HTML parser — `tl::parse`, `VDom::query_selector`,
/// `HTMLTag::inner_text`, `HTMLTag::query_selector` and `Attributes::get` —
/// for the first `main` element's inner text and its `a[href]` descendants'
/// (href, label) pairs; `None` when parsing fails or no `main` exists.
#[verifier::external_body]
fn extract_main(html: &str) -> (r: Option<(String, Vec<(String, String)>)>)
    ensures
        match r {
            Some(mc) => html_main(html@) == Some((mc.0@, pairs_view(mc.1@))),
            None => html_main(html@) is None,
        },
{
    let dom = tl::parse(html, tl::ParserOptions::default()).ok()?;
    let parser = dom.parser();
    let tag = dom.query_selector("main")?.next()?.get(parser)?.as_tag()?;
    let text = tag.inner_text(parser).to_string();
    let mut links: Vec<(String, String)> = Vec::new();
    if let Some(anchors) = tag.query_selector(parser, "a[href]") {
        for a in anchors {
            if let Some(t) = a.get(parser).and_then(|n| n.as_tag()) {
                if let Some(Some(h)) = t.attributes().get("href") {
                    links.push((h.as_utf8_str().to_string(), t.inner_text(parser).to_string()));
                }
            }
        }
    }
    Some((text, links))
}

/// The links that get references: those whose label is non-empty, in order.
pub open spec fn spec_kept(links: Seq<(Seq<char>, Seq<char>)>) -> Seq<(Seq<char>, Seq<char>)>
    decreases links.len(),
{
    if links.len() == 0 {
        Seq::empty()
    } else if links[0].1.len() > 0 {
        seq![links[0]] + spec_kept(links.drop_first())
    } else {
        spec_kept(links.drop_first())
    }
}

proof fn lemma_kept_push(links: Seq<(Seq<char>, Seq<char>)>, l: (Seq<char>, Seq<char>))
    ensures
        spec_kept(links.push(l)) == spec_kept(links) + (if l.1.len() > 0 {
            seq![l]
        } else {
            Seq::empty()
        }),
    decreases links.len(),
{
    let tail: Seq<(Seq<char>, Seq<char>)> = if l.1.len() > 0 {
        seq![l]
    } else {
        Seq::empty()
    };
    if links.len() == 0 {
        assert(links.push(l)[0] == l);
        assert(links.push(l).drop_first() =~= Seq::<(Seq<char>, Seq<char>)>::empty());
        assert(spec_kept(Seq::<(Seq<char>, Seq<char>)>::empty()) == Seq::<(
            Seq<char>,
            Seq<char>,
        )>::empty());
        if l.1.len() > 0 {
            assert(spec_kept(links.push(l)) == seq![l] + Seq::<(Seq<char>, Seq<char>)>::empty());
            assert(seq![l] + Seq::<(Seq<char>, Seq<char>)>::empty() =~= tail);
        }
        assert(spec_kept(links) + tail =~= tail);
    } else {
        assert(links.push(l)[0] == links[0]);
        assert(links.push(l).drop_first() =~= links.drop_first().push(l));
        lemma_kept_push(links.drop_first(), l);
        if links[0].1.len() > 0 {
            assert(seq![links[0]] + (spec_kept(links.drop_first()) + tail) =~= (seq![links[0]]
                + spec_kept(links.drop_first())) + tail);
        }
    }
}

/// The inline reference a link's label is rewritten to.
pub open spec fn spec_link_marker(label: Seq<char>, n: nat) -> Seq<char> {
    "("@ + label + ")["@ + spec_dec(n) + "]"@
}

/// The text after rewriting each link label in turn, numbering from `n`.
pub open spec fn spec_apply_links(
    text: Seq<char>,
    links: Seq<(Seq<char>, Seq<char>)>,
    n: nat,
) -> Seq<char>
    decreases links.len(),
{
    if links.len() == 0 {
        text
    } else {
        spec_apply_links(
            spec_replace_all(text, links[0].1, spec_link_marker(links[0].1, n)),
            links.drop_first(),
            n + 1,
        )
    }
}

/// A reference's target: the href itself when absolute, otherwise the href
/// resolved against the website's origin.
pub open spec fn spec_resolve_url(href: Seq<char>) -> Seq<char> {
    if spec_starts_with(href, "http"@) {
        href
    } else {
        spec_origin() + href
    }
}

/// The footnote lines, one per link, numbering from `n`.
pub open spec fn spec_footnotes(links: Seq<(Seq<char>, Seq<char>)>, n: nat) -> Seq<char>
    decreases links.len(),
{
    if links.len() == 0 {
        Seq::empty()
    } else {
        "["@ + spec_dec(n) + "]: "@ + spec_resolve_url(links[0].0) + "\n"@ + spec_footnotes(
            links.drop_first(),
            n + 1,
        )
    }
}

/// The rendered page: the rewritten text, trimmed, a blank line, then the
/// footnotes of the links that got references.
pub open spec fn spec_render(text: Seq<char>, links: Seq<(Seq<char>, Seq<char>)>) -> Seq<char> {
    let kept = spec_kept(links);
    spec_trim(spec_apply_links(text, kept, 1)) + "\n"@ + "\n"@ + spec_footnotes(kept, 1)
}

/// Extract the primary content region of a response page and rewrite it for
/// the terminal; fails with `ParseError` exactly when the page has no such
/// region (the caller then shows the raw body instead).
pub fn parse_response(html: &str) -> (r: Result<String, Error>)
    ensures
        html_main(html@) is None ==> (r matches Err(e) && e == Error::ParseError),
        html_main(html@) matches Some(mc) ==> (r matches Ok(out) && out@ == spec_render(
            mc.0,
            mc.1,
        )),
{
    let (text, links) = match extract_main(html) {
        None => {
            return Err(Error::ParseError);
        },
        Some(p) => p,
    };
    let ghost linksv = pairs_view(links@);
    let mut kept: Vec<(String, String)> = Vec::new();
    let mut i: usize = 0;
    proof {
        assert(pairs_view(kept@) =~= spec_kept(pairs_view(links@.take(0))));
        assert(pairs_view(links@.take(0)) =~= Seq::<(Seq<char>, Seq<char>)>::empty());
    }
    while i < links.len()
        invariant
            i <= links@.len(),
            linksv == pairs_view(links@),
            pairs_view(kept@) == spec_kept(pairs_view(links@.take(i as int))),
        decreases links@.len() - i,
    {
        let pair = &links[i];
        let ghost kept0 = kept@;
        if !pair.1.as_str().is_empty() {
            kept.push((pair.0.clone(), pair.1.clone()));
            proof {
                assert(pairs_view(kept@) =~= pairs_view(kept0).push(
                    (links@[i as int].0@, links@[i as int].1@),
                ));
            }
        }
        proof {
            let pl = (links@[i as int].0@, links@[i as int].1@);
            lemma_kept_push(pairs_view(links@.take(i as int)), pl);
            assert(pairs_view(links@.take(i as int)).push(pl) =~= pairs_view(
                links@.take(i + 1 as int),
            ));
            if pl.1.len() > 0 {
                assert(pairs_view(kept@) =~= spec_kept(pairs_view(links@.take(i as int))) + seq![
                    pl,
                ]);
            } else {
                assert(spec_kept(pairs_view(links@.take(i as int))) + Seq::<(
                    Seq<char>,
                    Seq<char>,
                )>::empty() =~= spec_kept(pairs_view(links@.take(i as int))));
            }
        }
        i = i + 1;
    }
    proof {
        assert(links@.take(links@.len() as int) =~= links@);
    }
    let ghost keptv = pairs_view(kept@);
    let mut cur: Vec<char> = str_to_chars(text.as_str());
    let mut k: usize = 0;
    proof {
        assert(keptv.skip(0) =~= keptv);
    }
    while k < kept.len()
        invariant
            k <= kept@.len(),
            keptv == pairs_view(kept@),
            spec_apply_links(text@, keptv, 1) == spec_apply_links(
                cur@,
                keptv.skip(k as int),
                (k + 1) as nat,
            ),
        decreases kept@.len() - k,
    {
        let label = str_to_chars(kept[k].1.as_str());
        let mut marker = String::from_str("(");
        marker.append(kept[k].1.as_str());
        marker.append(")[");
        let num = u64_to_string((k + 1) as u64);
        marker.append(num.as_str());
        marker.append("]");
        let marker_chars = str_to_chars(marker.as_str());
        proof {
            assert(marker_chars@ =~= spec_link_marker(keptv.skip(k as int)[0].1, (k + 1) as nat));
            assert(label@ == keptv.skip(k as int)[0].1);
        }
        cur = replace_all(&cur, &label, &marker_chars);
        proof {
            assert(keptv.skip(k as int).drop_first() =~= keptv.skip(k + 1 as int));
        }
        k = k + 1;
    }
    proof {
        assert(keptv.skip(keptv.len() as int) =~= Seq::<(Seq<char>, Seq<char>)>::empty());
        assert(spec_apply_links(text@, keptv, 1) == cur@);
    }
    let trimmed = trim_chars(&cur);
    let mut out = chars_to_string(&trimmed);
    out.append("\n");
    out.append("\n");
    let ghost base = out@;
    let mut f: usize = 0;
    proof {
        assert(base =~= spec_trim(spec_apply_links(text@, keptv, 1)) + "\n"@ + "\n"@);
        assert(keptv.skip(0) =~= keptv);
        assert(base + spec_footnotes(keptv, 1) =~= out@ + spec_footnotes(keptv.skip(0), 1));
    }
    while f < kept.len()
        invariant
            f <= kept@.len(),
            keptv == pairs_view(kept@),
            base + spec_footnotes(keptv, 1) == out@ + spec_footnotes(
                keptv.skip(f as int),
                (f + 1) as nat,
            ),
        decreases kept@.len() - f,
    {
        let ghost out0 = out@;
        out.append("[");
        let num = u64_to_string((f + 1) as u64);
        out.append(num.as_str());
        out.append("]: ");
        let href_chars = str_to_chars(kept[f].0.as_str());
        let http = str_to_chars("http");
        proof {
            assert(http@ == "http"@);
        }
        if starts_with_chars(&href_chars, &http) {
            out.append(kept[f].0.as_str());
        } else {
            out.append("https://adventofcode.com");
            out.append(kept[f].0.as_str());
            proof {
                reveal_strlit("https://adventofcode.com");
            }
        }
        out.append("\n");
        proof {
            let entry = keptv.skip(f as int)[0];
            assert(entry == keptv[f as int]);
            assert(out@ =~= out0 + ("["@ + spec_dec((f + 1) as nat) + "]: "@ + spec_resolve_url(
                entry.0,
            ) + "\n"@));
            assert(keptv.skip(f as int).drop_first() =~= keptv.skip(f + 1 as int));
            assert(out0 + ("["@ + spec_dec((f + 1) as nat) + "]: "@ + spec_resolve_url(entry.0)
                + "\n"@ + spec_footnotes(keptv.skip(f + 1 as int), (f + 2) as nat)) =~= out@
                + spec_footnotes(keptv.skip(f + 1 as int), (f + 2) as nat));
        }
        f = f + 1;
    }
    proof {
        assert(keptv.skip(keptv.len() as int) =~= Seq::<(Seq<char>, Seq<char>)>::empty());
        assert(spec_footnotes(Seq::<(Seq<char>, Seq<char>)>::empty(), (kept@.len() + 1) as nat)
            == Seq::<char>::empty());
        assert(out@ + Seq::<char>::empty() =~= out@);
        assert(out@ =~= spec_render(text@, linksv));
    }
    Ok(out)
}

} // verus!
