//! Which local images a batch command works on.

use vstd::prelude::*;

use crate::text::{
    contains, lex_le, lower_of, occurs_in, sort_strings, str_eq, string_views, to_lowercase,
};

verus! {

/// The tag the runtime gives an image that has none.
pub const UNTAGGED: &'static str = "<none>:<none>";

/// The tags of all images, image after image.
pub open spec fn all_tags(images: Seq<Vec<String>>) -> Seq<Seq<char>>
    decreases images.len(),
{
    if images.len() == 0 {
        Seq::empty()
    } else {
        all_tags(images.drop_last()) + string_views(images.last()@)
    }
}

/// A tag is listed: it is a real tag, and holds the filter when one is given,
/// neither case mattering.
pub open spec fn tag_selected(t: Seq<char>, filter: Option<Seq<char>>) -> bool {
    &&& t != UNTAGGED@
    &&& match filter {
        Some(f) => occurs_in(lower_of(f), lower_of(t)),
        None => true,
    }
}

/// The listed tags among `ts`, in their order.
pub open spec fn selected_tags(ts: Seq<Seq<char>>, filter: Option<Seq<char>>) -> Seq<Seq<char>>
    decreases ts.len(),
{
    if ts.len() == 0 {
        Seq::empty()
    } else if tag_selected(ts.last(), filter) {
        selected_tags(ts.drop_last(), filter).push(ts.last())
    } else {
        selected_tags(ts.drop_last(), filter)
    }
}

pub open spec fn opt_str_view(o: Option<&str>) -> Option<Seq<char>> {
    match o {
        Some(s) => Some(s@),
        None => None,
    }
}

/// The tags of the local images that a batch works on, in ascending order:
/// every real tag (not `<none>:<none>`) that contains the filter, neither
/// case mattering, when a filter is given.
pub fn select_image_tags(repo_tags: &Vec<Vec<String>>, filter: Option<&str>) -> (r: Vec<String>)
    ensures
        string_views(r@).to_multiset() == selected_tags(
            all_tags(repo_tags@),
            opt_str_view(filter),
        ).to_multiset(),
        forall|i: int, j: int| 0 <= i < j < r@.len() ==> lex_le(#[trigger] r@[i]@, #[trigger] r@[j]@),
{
    let ghost f = opt_str_view(filter);
    let lowered_filter = match filter {
        Some(x) => Some(to_lowercase(x)),
        None => None,
    };
    let mut out: Vec<String> = Vec::new();
    let mut i: usize = 0;
    while i < repo_tags.len()
        invariant
            i <= repo_tags.len(),
            f == opt_str_view(filter),
            match filter {
                Some(x) => lowered_filter matches Some(l) && l@ == lower_of(x@),
                None => lowered_filter is None,
            },
            string_views(out@) == selected_tags(all_tags(repo_tags@.take(i as int)), f),
        decreases repo_tags.len() - i,
    {
        let tags = &repo_tags[i];
        let ghost base = all_tags(repo_tags@.take(i as int));
        let mut j: usize = 0;
        while j < tags.len()
            invariant
                j <= tags.len(),
                f == opt_str_view(filter),
                match filter {
                    Some(x) => lowered_filter matches Some(l) && l@ == lower_of(x@),
                    None => lowered_filter is None,
                },
                string_views(out@) == selected_tags(base + string_views(tags@.take(j as int)), f),
            decreases tags.len() - j,
        {
            let t = &tags[j];
            let ghost before = out@;
            proof {
                assert((base + string_views(tags@.take(j + 1))).drop_last() =~= base
                    + string_views(tags@.take(j as int)));
                assert((base + string_views(tags@.take(j + 1))).last() == t@);
            }
            let keep = if str_eq(t.as_str(), UNTAGGED) {
                false
            } else {
                match &lowered_filter {
                    Some(l) => {
                        let lt = to_lowercase(t.as_str());
                        contains(lt.as_str(), l.as_str())
                    },
                    None => true,
                }
            };
            if keep {
                out.push(t.clone());
                proof {
                    assert(string_views(out@) =~= string_views(before).push(t@));
                }
            }
            j = j + 1;
        }
        proof {
            assert(tags@.take(tags@.len() as int) =~= tags@);
            assert(repo_tags@.take(i + 1).drop_last() =~= repo_tags@.take(i as int));
            assert(repo_tags@.take(i + 1).last() == repo_tags@[i as int]);
        }
        i = i + 1;
    }
    proof {
        assert(repo_tags@.take(repo_tags@.len() as int) =~= repo_tags@);
        lemma_views_multiset(out@);
    }
    let ghost unsorted = out@;
    sort_strings(&mut out);
    proof {
        lemma_views_multiset(out@);
        lemma_views_of_same_multiset(unsorted, out@);
    }
    out
}

/// The name pattern of a compose service's image: project, separator, service.
pub open spec fn service_pattern(project: Seq<char>, sep: Seq<char>, service: Seq<char>) -> Seq<char> {
    project + sep + service
}

/// An image belongs to a compose service: its name contains the project and
/// the service joined by `_`, `-` or `/`, neither case mattering.
pub open spec fn service_hit(image: Seq<char>, project: Seq<char>, service: Seq<char>) -> bool {
    ||| occurs_in(lower_of(service_pattern(project, "_"@, service)), lower_of(image))
    ||| occurs_in(lower_of(service_pattern(project, "-"@, service)), lower_of(image))
    ||| occurs_in(lower_of(service_pattern(project, "/"@, service)), lower_of(image))
}

/// The image once for each of `services` that it belongs to.
pub open spec fn image_hits(image: Seq<char>, project: Seq<char>, services: Seq<Seq<char>>) -> Seq<
    Seq<char>,
>
    decreases services.len(),
{
    if services.len() == 0 {
        Seq::empty()
    } else if service_hit(image, project, services.last()) {
        image_hits(image, project, services.drop_last()).push(image)
    } else {
        image_hits(image, project, services.drop_last())
    }
}

/// The images of a compose project, image after image.
pub open spec fn compose_hits(images: Seq<Seq<char>>, project: Seq<char>, services: Seq<Seq<char>>) -> Seq<
    Seq<char>,
>
    decreases images.len(),
{
    if images.len() == 0 {
        Seq::empty()
    } else {
        compose_hits(images.drop_last(), project, services) + image_hits(
            images.last(),
            project,
            services,
        )
    }
}

/// `project`, `sep`, `service` joined and lower-cased.
fn lowered_pattern(project: &str, sep: &str, service: &str) -> (r: String)
    ensures
        r@ == lower_of(service_pattern(project@, sep@, service@)),
{
    let mut p = project.to_owned();
    p.append(sep);
    p.append(service);
    to_lowercase(p.as_str())
}

/// The local images that belong to the services of a compose project: each
/// image once for every service whose name pattern it contains.
pub fn match_compose_images(images: &Vec<String>, project: &str, services: &Vec<String>) -> (r: Vec<
    String,
>)
    ensures
        string_views(r@) == compose_hits(string_views(images@), project@, string_views(services@)),
{
    let ghost sv = string_views(services@);
    let mut out: Vec<String> = Vec::new();
    let mut i: usize = 0;
    while i < images.len()
        invariant
            i <= images.len(),
            sv == string_views(services@),
            string_views(out@) == compose_hits(string_views(images@.take(i as int)), project@, sv),
        decreases images.len() - i,
    {
        let image = &images[i];
        let lowered = to_lowercase(image.as_str());
        let ghost base = string_views(out@);
        let mut j: usize = 0;
        while j < services.len()
            invariant
                j <= services.len(),
                sv == string_views(services@),
                lowered@ == lower_of(image@),
                string_views(out@) == base + image_hits(image@, project@, sv.take(j as int)),
            decreases services.len() - j,
        {
            let service = services[j].as_str();
            let ghost before = out@;
            proof {
                assert(sv.take(j + 1).drop_last() =~= sv.take(j as int));
                assert(sv.take(j + 1).last() == service@);
                reveal_strlit("_");
                reveal_strlit("-");
                reveal_strlit("/");
            }
            let a = lowered_pattern(project, "_", service);
            let b = lowered_pattern(project, "-", service);
            let c = lowered_pattern(project, "/", service);
            let hit = contains(lowered.as_str(), a.as_str()) || contains(
                lowered.as_str(),
                b.as_str(),
            ) || contains(lowered.as_str(), c.as_str());
            if hit {
                out.push(image.clone());
                proof {
                    assert(string_views(out@) =~= string_views(before).push(image@));
                }
            }
            j = j + 1;
        }
        proof {
            assert(sv.take(sv.len() as int) =~= sv);
            assert(string_views(images@.take(i + 1)).drop_last() =~= string_views(
                images@.take(i as int),
            ));
            assert(string_views(images@.take(i + 1)).last() == image@);
        }
        i = i + 1;
    }
    proof {
        assert(images@.take(images@.len() as int) =~= images@);
    }
    out
}

proof fn lemma_views_multiset(v: Seq<String>)
    ensures
        string_views(v).len() == v.len(),
{
}

/// Two lists of strings that hold the same strings hold the same views.
proof fn lemma_views_of_same_multiset(a: Seq<String>, b: Seq<String>)
    requires
        a.to_multiset() == b.to_multiset(),
    ensures
        string_views(a).to_multiset() == string_views(b).to_multiset(),
    decreases a.len(),
{
    broadcast use vstd::seq_lib::group_to_multiset_ensures;
    if a.len() == 0 {
        assert(b.len() == 0) by {
            assert(b.to_multiset().len() == 0);
        }
        assert(string_views(a) =~= Seq::empty());
        assert(string_views(b) =~= Seq::empty());
    } else {
        let x = a.last();
        assert(a.to_multiset().count(x) > 0) by {
            assert(a.contains(x)) by {
                assert(a[a.len() - 1] == x);
            }
        }
        assert(b.contains(x));
        let k = choose|k: int| 0 <= k < b.len() && b[k] == x;
        let b2 = b.remove(k);
        assert(b2.insert(k, x) =~= b);
        b2.insert_ensures(k, x);
        assert(a.drop_last().push(x) =~= a);
        assert(a.drop_last().to_multiset() =~= b2.to_multiset()) by {
            assert(a.to_multiset() == a.drop_last().to_multiset().insert(x));
            lemma_multiset_insert_seq(b2, k, x);
        }
        lemma_views_of_same_multiset(a.drop_last(), b2);
        assert(string_views(a) =~= string_views(a.drop_last()).push(x@));
        lemma_views_remove(b, k);
    }
}

proof fn lemma_multiset_insert_seq(s: Seq<String>, k: int, x: String)
    requires
        0 <= k <= s.len(),
    ensures
        s.insert(k, x).to_multiset() == s.to_multiset().insert(x),
{
    broadcast use vstd::seq_lib::group_to_multiset_ensures;
    let t = s.insert(k, x);
    assert(t =~= s.take(k).push(x) + s.skip(k));
    vstd::seq_lib::lemma_multiset_commutative(s.take(k).push(x), s.skip(k));
    vstd::seq_lib::lemma_multiset_commutative(s.take(k), s.skip(k));
    assert(s.take(k) + s.skip(k) =~= s);
}

proof fn lemma_views_remove(b: Seq<String>, k: int)
    requires
        0 <= k < b.len(),
    ensures
        string_views(b).to_multiset() == string_views(b.remove(k)).to_multiset().insert(b[k]@),
{
    broadcast use vstd::seq_lib::group_to_multiset_ensures;
    let vb = string_views(b);
    let vr = string_views(b.remove(k));
    assert(vb =~= vr.insert(k, b[k]@));
    let t = vr.insert(k, b[k]@);
    assert(t =~= vr.take(k).push(b[k]@) + vr.skip(k));
    vstd::seq_lib::lemma_multiset_commutative(vr.take(k).push(b[k]@), vr.skip(k));
    vstd::seq_lib::lemma_multiset_commutative(vr.take(k), vr.skip(k));
    assert(vr.take(k) + vr.skip(k) =~= vr);
}

} // verus!
