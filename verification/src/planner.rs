//! The build planner: drops repeated declarations, freezes the set of declared
//! paths, and binds every deferred source to a view over that set.

use url::Url;
use vstd::prelude::*;

use crate::artifact::{ContentSource, OutputArtifact};
use crate::paths::{is_absolute, reference_of};
use crate::targets::{copy_paths, holds_path, path_set, Targets};

verus! {

/// The bytes of one planned artifact, not yet obtained.
pub enum DeferredBytes<R> {
    /// The bytes are at hand.
    Ready(Vec<u8>),
    /// The bytes are to be fetched from the URL.
    Fetch(Url),
    /// The bytes are to be rendered by the caller's renderer, which receives
    /// the view over the frozen path set.
    Render(R, Targets),
}

/// One entry of a plan: an output path and the bytes that belong there.
pub struct PlannedArtifact<R> {
    pub path: String,
    pub bytes: DeferredBytes<R>,
}

/// The paths of a list of declarations, in the order of declaration.
pub open spec fn declared_paths<R>(declared: Seq<OutputArtifact<R>>) -> Seq<Seq<char>> {
    Seq::new(declared.len(), |i: int| declared[i].spec_path())
}

/// The paths of a plan, in the order of its entries.
pub open spec fn planned_paths<R>(planned: Seq<PlannedArtifact<R>>) -> Seq<Seq<char>> {
    Seq::new(planned.len(), |k: int| planned[k].path@)
}

/// Whether position `i` holds the first declaration of its path.
pub open spec fn is_first_declaration(paths: Seq<Seq<char>>, i: int) -> bool {
    0 <= i < paths.len() && forall|j: int| 0 <= j < i ==> paths[j] != paths[i]
}

/// The positions below `count`, in increasing order.
pub open spec fn positions(count: nat) -> Seq<int> {
    Seq::new(count, |i: int| i)
}

/// The test that a position of `paths` holds the first declaration of its path.
pub open spec fn holds_first_declaration(paths: Seq<Seq<char>>) -> spec_fn(int) -> bool {
    |i: int| is_first_declaration(paths, i)
}

/// The positions of the declarations that survive planning, in increasing
/// order: those that hold the first declaration of their path.
pub open spec fn survivors(paths: Seq<Seq<char>>) -> Seq<int> {
    positions(paths.len()).filter(holds_first_declaration(paths))
}

/// The survivors among the first `count` declarations.
spec fn survivors_among(paths: Seq<Seq<char>>, count: int) -> Seq<int> {
    positions(paths.len()).take(count).filter(holds_first_declaration(paths))
}

/// Whether `bytes` is `source` bound to the frozen path set `all`, for the
/// artifact at `current`.
pub open spec fn binds<R>(
    source: ContentSource<R>,
    current: Seq<char>,
    all: Set<Seq<char>>,
    bytes: DeferredBytes<R>,
) -> bool {
    match source {
        ContentSource::InlineBytes(content) => bytes == DeferredBytes::<R>::Ready(content),
        ContentSource::RemoteFetch(url) => bytes == DeferredBytes::<R>::Fetch(url),
        ContentSource::DeferredRender(renderer) => {
            &&& bytes matches DeferredBytes::Render(bound, targets)
            &&& bound == renderer
            &&& targets@.current == current
            &&& targets@.all == all
        },
    }
}

/// Whether `planned` is the plan of `declared`: one entry for the first
/// declaration of every path, in the order of declaration, each source bound
/// to the set of all declared paths.
pub open spec fn is_plan_of<R>(
    declared: Seq<OutputArtifact<R>>,
    planned: Seq<PlannedArtifact<R>>,
) -> bool {
    let paths = declared_paths(declared);
    let kept = survivors(paths);
    &&& planned.len() == kept.len()
    &&& forall|k: int|
        0 <= k < planned.len() ==> {
            &&& 0 <= #[trigger] kept[k] < declared.len()
            &&& planned[k].path@ == paths[kept[k]]
            &&& is_absolute(planned[k].path@)
            &&& binds(
                declared[kept[k]].spec_source(),
                paths[kept[k]],
                paths.to_set(),
                planned[k].bytes,
            )
        }
}

/// Taking in the declaration at position `i` keeps the survivors found
/// before it, and adds `i` exactly when its path is new; all survivors found
/// so far lie before the next position, in increasing order.
proof fn lemma_survivors_among(paths: Seq<Seq<char>>, i: int)
    requires
        0 <= i < paths.len(),
    ensures
        survivors_among(paths, i + 1) == if paths.take(i).contains(paths[i]) {
            survivors_among(paths, i)
        } else {
            survivors_among(paths, i).push(i)
        },
        forall|k: int|
            0 <= k < survivors_among(paths, i).len() ==> 0 <= #[trigger] survivors_among(
                paths,
                i,
            )[k] < i,
        forall|k: int, l: int|
            0 <= k < l < survivors_among(paths, i).len() ==> survivors_among(paths, i)[k]
                < survivors_among(paths, i)[l],
    decreases i,
{
    let all = positions(paths.len());
    let first = holds_first_declaration(paths);
    assert(all.take(i + 1) =~= all.take(i).push(i));
    all.take(i).lemma_filter_push(i, first);
    if paths.take(i).contains(paths[i]) {
        let j = choose|j: int| 0 <= j < i && paths.take(i)[j] == paths[i];
        assert(paths[j] == paths[i]);
    } else {
        assert forall|j: int| 0 <= j < i implies paths[j] != paths[i] by {
            assert(paths.take(i)[j] == paths[j]);
        }
    }
    if i > 0 {
        lemma_survivors_among(paths, i - 1);
    } else {
        reveal(Seq::filter);
        assert(all.take(0) =~= Seq::<int>::empty());
    }
}

/// The survivors among all declarations are the survivors.
proof fn lemma_survivors_among_all(paths: Seq<Seq<char>>)
    ensures
        survivors_among(paths, paths.len() as int) == survivors(paths),
{
    assert(positions(paths.len()).take(paths.len() as int) =~= positions(paths.len()));
}

/// Taking one more declaration adds its path to the set of paths taken.
proof fn lemma_take_set_step(paths: Seq<Seq<char>>, i: int)
    requires
        0 <= i < paths.len(),
    ensures
        paths.take(i + 1).to_set() == paths.take(i).to_set().insert(paths[i]),
        paths.take(i).contains(paths[i]) == paths.take(i).to_set().contains(paths[i]),
{
    let earlier = paths.take(i);
    let upto = paths.take(i + 1);
    assert(upto =~= earlier.push(paths[i]));
    assert forall|p: Seq<char>| upto.to_set().contains(p) == earlier.to_set().insert(
        paths[i],
    ).contains(p) by {
        if upto.contains(p) {
            let j = choose|j: int| 0 <= j < upto.len() && upto[j] == p;
            if j < i {
                assert(earlier[j] == p);
            }
        }
        if earlier.contains(p) {
            let j = choose|j: int| 0 <= j < earlier.len() && earlier[j] == p;
            assert(upto[j] == p);
        }
        if p == paths[i] {
            assert(upto[i] == p);
        }
    }
    assert(upto.to_set() =~= earlier.to_set().insert(paths[i]));
}

/// Appending a path to a list adds it to the set of paths that the list names.
proof fn lemma_path_set_push(paths: Seq<String>, path: String)
    ensures
        path_set(paths.push(path)) == path_set(paths).insert(path@),
{
    let longer = paths.push(path);
    assert forall|p: Seq<char>| path_set(longer).contains(p) == path_set(paths).insert(
        path@,
    ).contains(p) by {
        if path_set(longer).contains(p) {
            let k = choose|k: int| 0 <= k < longer.len() && #[trigger] longer[k]@ == p;
            if k < paths.len() {
                assert(paths[k]@ == p);
            }
        }
        if path_set(paths).contains(p) {
            let k = choose|k: int| 0 <= k < paths.len() && #[trigger] paths[k]@ == p;
            assert(longer[k]@ == p);
        }
        if p == path@ {
            assert(longer[paths.len() as int]@ == p);
        }
    }
    assert(path_set(longer) =~= path_set(paths).insert(path@));
}

/// Binds one surviving source to the frozen path set.
fn bind<R>(source: ContentSource<R>, current: &String, frozen: &Vec<String>) -> (bytes:
    DeferredBytes<R>)
    requires
        is_absolute(current@),
        path_set(frozen@).contains(current@),
    ensures
        binds(source, current@, path_set(frozen@), bytes),
{
    match source {
        ContentSource::InlineBytes(content) => DeferredBytes::Ready(content),
        ContentSource::RemoteFetch(url) => DeferredBytes::Fetch(url),
        ContentSource::DeferredRender(renderer) => DeferredBytes::Render(
            renderer,
            Targets::new(current.clone(), copy_paths(frozen)),
        ),
    }
}

/// Plans a build: keeps the first declaration of every path, freezes the set
/// of declared paths, and binds every surviving source to it.
///
/// Planning evaluates no source and refuses no declaration.
pub fn plan<R>(artifacts: Vec<OutputArtifact<R>>) -> (planned: Vec<PlannedArtifact<R>>)
    ensures
        is_plan_of(artifacts@, planned@),
{
    let ghost declared = artifacts@;
    let ghost paths = declared_paths(declared);
    let mut kept: Vec<OutputArtifact<R>> = Vec::new();
    let mut frozen: Vec<String> = Vec::new();
    for artifact in it: artifacts
        invariant
            it.seq() == declared,
            paths == declared_paths(declared),
            kept.len() == survivors_among(paths, it.index() as int).len(),
            frozen.len() == kept.len(),
            forall|k: int|
                0 <= k < kept.len() ==> {
                    &&& 0 <= #[trigger] survivors_among(paths, it.index() as int)[k] < it.index()
                    &&& kept@[k] == declared[survivors_among(paths, it.index() as int)[k]]
                    &&& frozen@[k]@ == kept@[k].spec_path()
                },
            path_set(frozen@) == paths.take(it.index() as int).to_set(),
    {
        let ghost i = it.index() as int;
        proof {
            lemma_survivors_among(paths, i);
            lemma_take_set_step(paths, i);
            assert(paths[i] == artifact.spec_path());
        }
        if !holds_path(&frozen, artifact.path()) {
            let path = artifact.path().to_owned();
            proof {
                lemma_path_set_push(frozen@, path);
            }
            frozen.push(path);
            kept.push(artifact);
        } else {
            assert(paths.take(i).to_set().insert(paths[i]) =~= paths.take(i).to_set());
        }
    }
    assert(paths.take(declared.len() as int) =~= paths);
    proof {
        lemma_survivors_among_all(paths);
    }
    let ghost chosen = survivors(paths);
    let ghost survived = kept@;
    let mut planned: Vec<PlannedArtifact<R>> = Vec::new();
    for artifact in it: kept
        invariant
            it.seq() == survived,
            survived.len() == chosen.len(),
            frozen.len() == survived.len(),
            paths == declared_paths(declared),
            path_set(frozen@) == paths.to_set(),
            forall|k: int|
                0 <= k < survived.len() ==> {
                    &&& 0 <= #[trigger] chosen[k] < declared.len()
                    &&& survived[k] == declared[chosen[k]]
                    &&& frozen@[k]@ == survived[k].spec_path()
                },
            planned.len() == it.index(),
            forall|k: int|
                0 <= k < planned.len() ==> {
                    &&& planned@[k].path@ == paths[#[trigger] chosen[k]]
                    &&& is_absolute(planned@[k].path@)
                    &&& binds(
                        declared[chosen[k]].spec_source(),
                        paths[chosen[k]],
                        paths.to_set(),
                        planned@[k].bytes,
                    )
                },
    {
        let ghost k = it.index() as int;
        assert(survived[k] == declared[chosen[k]]);
        let (path, source) = artifact.into_parts();
        let bytes = bind(source, &path, &frozen);
        planned.push(PlannedArtifact { path, bytes });
    }
    planned
}

/// The survivors are exactly the first declarations, in increasing order:
/// where a path is declared more than once, the first declaration wins.
pub proof fn lemma_survivors_are_first_declarations(paths: Seq<Seq<char>>)
    ensures
        forall|k: int|
            0 <= k < survivors(paths).len() ==> is_first_declaration(
                paths,
                #[trigger] survivors(paths)[k],
            ),
        forall|k: int, l: int|
            0 <= k < l < survivors(paths).len() ==> survivors(paths)[k] < survivors(paths)[l],
        forall|i: int| is_first_declaration(paths, i) ==> survivors(paths).contains(i),
        survivors(paths).len() <= paths.len(),
{
    let all = positions(paths.len());
    let first = holds_first_declaration(paths);
    all.lemma_filter_len(first);
    assert forall|k: int| 0 <= k < survivors(paths).len() implies is_first_declaration(
        paths,
        #[trigger] survivors(paths)[k],
    ) by {
        all.lemma_filter_pred(first, k);
    }
    assert forall|i: int| is_first_declaration(paths, i) implies survivors(paths).contains(i) by {
        assert(all[i] == i);
        all.lemma_filter_contains(first, i);
    }
    lemma_survivors_among_all(paths);
    if paths.len() > 0 {
        let last = paths.len() - 1;
        lemma_survivors_among(paths, last);
        let found = survivors_among(paths, last);
        assert forall|k: int, l: int| 0 <= k < l < survivors(paths).len() implies survivors(
            paths,
        )[k] < survivors(paths)[l] by {
            if l < found.len() {
            } else {
                assert(survivors(paths)[l] == last);
                assert(0 <= found[k] < last);
            }
        }
    }
}

/// Every declaration has a first declaration of its path, at or before it.
proof fn lemma_first_declaration_exists(paths: Seq<Seq<char>>, i: int) -> (first: int)
    requires
        0 <= i < paths.len(),
    ensures
        is_first_declaration(paths, first),
        first <= i,
        paths[first] == paths[i],
    decreases i,
{
    if is_first_declaration(paths, i) {
        i
    } else {
        let j = choose|j: int| 0 <= j < i && paths[j] == paths[i];
        lemma_first_declaration_exists(paths, j)
    }
}

/// A plan holds every declared path exactly once: no path twice, none left
/// out, none added. A path declared twice is no error: it is planned once.
pub proof fn lemma_plan_holds_every_path_once<R>(
    declared: Seq<OutputArtifact<R>>,
    planned: Seq<PlannedArtifact<R>>,
)
    requires
        is_plan_of(declared, planned),
    ensures
        planned_paths(planned).no_duplicates(),
        planned_paths(planned).to_set() == declared_paths(declared).to_set(),
{
    let paths = declared_paths(declared);
    let kept = survivors(paths);
    let chosen = planned_paths(planned);
    lemma_survivors_are_first_declarations(paths);
    assert forall|k: int, l: int| 0 <= k < chosen.len() && 0 <= l < chosen.len() && k
        != l implies chosen[k] != chosen[l] by {
        assert(is_first_declaration(paths, kept[k]));
        assert(is_first_declaration(paths, kept[l]));
        if k < l {
            assert(kept[k] < kept[l]);
        } else {
            assert(kept[l] < kept[k]);
        }
    }
    assert forall|p: Seq<char>| chosen.to_set().contains(p) == paths.to_set().contains(p) by {
        if chosen.contains(p) {
            let k = choose|k: int| 0 <= k < chosen.len() && chosen[k] == p;
            assert(is_first_declaration(paths, kept[k]));
            assert(paths[kept[k]] == p);
        }
        if paths.contains(p) {
            let i = choose|i: int| 0 <= i < paths.len() && paths[i] == p;
            let first = lemma_first_declaration_exists(paths, i);
            assert(kept.contains(first));
            let k = choose|k: int| 0 <= k < kept.len() && kept[k] == first;
            assert(chosen[k] == p);
        }
    }
    assert(chosen.to_set() =~= paths.to_set());
}

/// Where no path is declared twice, every declaration survives.
proof fn lemma_survivors_of_unique_paths(paths: Seq<Seq<char>>, count: int)
    requires
        paths.no_duplicates(),
        0 <= count <= paths.len(),
    ensures
        survivors_among(paths, count) == positions(paths.len()).take(count),
    decreases count,
{
    let all = positions(paths.len());
    if count > 0 {
        let i = count - 1;
        lemma_survivors_of_unique_paths(paths, i);
        lemma_survivors_among(paths, i);
        if paths.take(i).contains(paths[i]) {
            let j = choose|j: int| 0 <= j < i && paths.take(i)[j] == paths[i];
            assert(paths[j] == paths[i]);
        }
        assert(all.take(count) =~= all.take(i).push(i));
    } else {
        reveal(Seq::filter);
        assert(all.take(0) =~= Seq::<int>::empty());
    }
}

/// Where no path is declared twice, the plan has one entry for every
/// declaration, in the order of declaration, under the declared path and
/// with the declared source.
pub proof fn lemma_unique_declarations_are_all_planned<R>(
    declared: Seq<OutputArtifact<R>>,
    planned: Seq<PlannedArtifact<R>>,
)
    requires
        is_plan_of(declared, planned),
        declared_paths(declared).no_duplicates(),
    ensures
        planned.len() == declared.len(),
        forall|k: int|
            0 <= k < planned.len() ==> {
                &&& (#[trigger] planned[k]).path@ == declared[k].spec_path()
                &&& binds(
                    declared[k].spec_source(),
                    declared[k].spec_path(),
                    declared_paths(declared).to_set(),
                    planned[k].bytes,
                )
            },
{
    let paths = declared_paths(declared);
    lemma_survivors_of_unique_paths(paths, paths.len() as int);
    lemma_survivors_among_all(paths);
    assert forall|k: int| 0 <= k < planned.len() implies {
        &&& (#[trigger] planned[k]).path@ == declared[k].spec_path()
        &&& binds(
            declared[k].spec_source(),
            declared[k].spec_path(),
            declared_paths(declared).to_set(),
            planned[k].bytes,
        )
    } by {
        assert(survivors(paths)[k] == k);
    }
}

/// Every renderer of a plan sees the complete set of planned paths: from
/// the view bound to it, the path of every planned artifact resolves to its
/// reference, whatever the order in which the artifacts are produced.
pub proof fn lemma_renderers_resolve_every_planned_path<R>(
    declared: Seq<OutputArtifact<R>>,
    planned: Seq<PlannedArtifact<R>>,
    renderer: int,
    sibling: int,
)
    requires
        is_plan_of(declared, planned),
        0 <= renderer < planned.len(),
        0 <= sibling < planned.len(),
    ensures
        planned[renderer].bytes matches DeferredBytes::Render(_, targets) ==> {
            &&& targets@.current == planned[renderer].path@
            &&& targets@.resolve(planned[sibling].path@) == Some(
                reference_of(planned[sibling].path@),
            )
        },
{
    let paths = declared_paths(declared);
    let kept = survivors(paths);
    assert(0 <= kept[renderer] < declared.len());
    assert(0 <= kept[sibling] < declared.len());
    assert(paths.contains(paths[kept[sibling]]));
}

} // verus!
