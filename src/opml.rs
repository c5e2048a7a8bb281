//! The feed URLs of an OPML outline document.
use vstd::prelude::*;

verus! {

/// An outline element: the feed URL it names, if any, and the outlines
/// nested in it.
pub struct Outline {
    pub xml_url: Option<String>,
    pub outlines: Vec<Outline>,
}

/// The outlines in the body of an OPML document.
pub struct Opml {
    pub outlines: Vec<Outline>,
}

/// The feed URLs of a list of outlines, taken from the last outline to the
/// first, each outline's own URL before those nested in it.
pub open spec fn forest_urls(os: Seq<Outline>) -> Seq<String>
    decreases os,
    via forest_urls_decreases
{
    if os.len() == 0 {
        Seq::empty()
    } else {
        let top = os.last();
        let own = match top.xml_url {
            Some(u) => seq![u],
            None => Seq::empty(),
        };
        own + forest_urls(top.outlines@) + forest_urls(os.drop_last())
    }
}

#[via_fn]
proof fn forest_urls_decreases(os: Seq<Outline>) {
    if os.len() > 0 {
        let top = os[os.len() - 1];
        assert(decreases_to!(os => os[os.len() - 1]));
        assert(decreases_to!(top => top.outlines));
        assert(decreases_to!(top.outlines => top.outlines@));
        assert(decreases_to!(os => top.outlines@));
        assert(decreases_to!(os => os.subrange(0, os.len() - 1)));
    }
}

fn collect_urls(os: &Vec<Outline>, out: &mut Vec<String>)
    ensures
        final(out)@ == old(out)@ + forest_urls(os@),
    decreases os@,
{
    let mut k: usize = os.len();
    assert(os@.subrange(0, os@.len() as int) =~= os@);
    while k > 0
        invariant
            k <= os@.len(),
            old(out)@ + forest_urls(os@) == out@ + forest_urls(os@.subrange(0, k as int)),
        decreases k,
    {
        let top = &os[k - 1];
        let ghost pre = os@.subrange(0, k as int);
        assert(pre.last() == *top);
        assert(pre.drop_last() =~= os@.subrange(0, k - 1));
        let ghost own = match os@[k - 1].xml_url {
            Some(u) => seq![u],
            None => Seq::<String>::empty(),
        };
        let ghost before = out@;
        match &top.xml_url {
            Some(u) => {
                out.push(u.clone());
            },
            None => {},
        }
        assert(out@ == before + own);
        proof {
            assert(decreases_to!(os@ => os@[k - 1]));
            assert(decreases_to!(os@[k - 1] => os@[k - 1].outlines));
            assert(decreases_to!(os@[k - 1].outlines => os@[k - 1].outlines@));
        }
        collect_urls(&top.outlines, out);
        assert(forest_urls(pre) == own + forest_urls(top.outlines@) + forest_urls(
            os@.subrange(0, k - 1),
        ));
        k = k - 1;
    }
    assert(os@.subrange(0, 0) =~= Seq::<Outline>::empty());
    assert(out@ =~= old(out)@ + forest_urls(os@));
}

/// The feed URLs named anywhere in the document, outlines nested in others
/// included.
pub fn get_feed_urls(opml_document: &Opml) -> (r: Vec<String>)
    ensures
        r@ == forest_urls(opml_document.outlines@),
{
    let mut feed_urls: Vec<String> = Vec::new();
    collect_urls(&opml_document.outlines, &mut feed_urls);
    assert(feed_urls@ =~= forest_urls(opml_document.outlines@));
    feed_urls
}

} // verus!
