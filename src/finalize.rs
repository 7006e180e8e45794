//! After all headers are placed: collects the names that headers refer to and
//! plans the links that make each of them resolve with its exact casing.
use vstd::prelude::*;
use crate::names::from_slice;
use vstd::utf8::valid_utf8;
use crate::hash::{calc_lower_hash, dedup_key};
use crate::names::{ascii_lowercase, basename, basename_spec, bytes_eq, has_upper, has_upper_spec, lower};
use crate::place::{Step, copy_bytes, lemma_path_push};
use crate::registry::{DedupRegistry, has_key, path_view};

verus! {

/// What the first group of a regular expression captures at each successive
/// match in the bytes (`None` where the group took no part).
pub uninterp spec fn group_captures(pattern: Seq<u8>, hay: Seq<u8>) -> Seq<Option<Seq<u8>>>;

pub open spec fn opts_view(v: Seq<Option<Vec<u8>>>) -> Seq<Option<Seq<u8>>> {
    v.map_values(
        |o: Option<Vec<u8>>|
            match o {
                Some(g) => Some(g@),
                None => None,
            },
    )
}

/// The captured bytes, in order, leaving out the matches without one.
pub open spec fn captured(s: Seq<Option<Seq<u8>>>) -> Seq<Seq<u8>>
    decreases s.len(),
{
    if s.len() == 0 {
        seq![]
    } else {
        captured(s.drop_last()) + match s.last() {
            Some(g) => seq![g],
            None => seq![],
        }
    }
}

/// The directive that names another header: `#` followed by the directive's
/// word, white space, and a name in quotes or angle brackets, as the regular
/// expression `#<word>\s+(?:"|<)([^">]+)(?:"|>)?`; the name is its first group.
pub open spec fn directive_pattern() -> Seq<u8> {
    seq![35u8, 105u8, 110u8, 99u8, 108u8, 117u8, 100u8, 101u8, 92u8, 115u8, 43u8, 40u8, 63u8, 58u8, 34u8, 124u8, 60u8, 41u8, 40u8, 91u8, 94u8, 34u8, 62u8, 93u8, 43u8, 41u8, 40u8, 63u8, 58u8, 34u8, 124u8, 62u8, 41u8, 63u8]
}

/// Relies on `regex::bytes::Regex::new` and `Regex::captures_iter`: compiles the
/// pattern (`None` where it is not UTF-8 or not a valid expression) and lists, for
/// each successive match, the bytes of its first group where that group took part.
/// The result depends on the pattern and the bytes alone.
#[verifier::external_body]
fn first_groups(pattern: &[u8], hay: &[u8]) -> (r: Option<Vec<Option<Vec<u8>>>>)
    ensures
        r matches Some(v) ==> opts_view(v@) == group_captures(pattern@, hay@),
{
    let p = std::str::from_utf8(pattern).ok()?;
    let re = regex::bytes::Regex::new(p).ok()?;
    Some(re.captures_iter(hay).map(|c| c.get(1).map(|m| m.as_bytes().to_vec())).collect())
}

/// Relies on `std::str::from_utf8`, which succeeds exactly on valid UTF-8.
#[verifier::external_body]
fn is_utf8(b: &[u8]) -> (r: bool)
    ensures
        r == valid_utf8(b@),
{
    std::str::from_utf8(b).is_ok()
}

/// The names that the directives in a file's bytes refer to, in order. `None`
/// only where the expression could not be compiled.
pub fn scan_targets(contents: &Vec<u8>) -> (r: Option<Vec<Vec<u8>>>)
    ensures
        r matches Some(ts) ==> path_view(ts@) == captured(
            group_captures(directive_pattern(), contents@),
        ),
{
    let pattern = from_slice(&[35u8, 105u8, 110u8, 99u8, 108u8, 117u8, 100u8, 101u8, 92u8, 115u8, 43u8, 40u8, 63u8, 58u8, 34u8, 124u8, 60u8, 41u8, 40u8, 91u8, 94u8, 34u8, 62u8, 93u8, 43u8, 41u8, 40u8, 63u8, 58u8, 34u8, 124u8, 62u8, 41u8, 63u8]);
    assert(pattern@ =~= directive_pattern());
    let groups = match first_groups(pattern.as_slice(), contents.as_slice()) {
        Some(g) => g,
        None => {
            return None;
        },
    };
    let ghost gv = opts_view(groups@);
    let mut r: Vec<Vec<u8>> = Vec::new();
    let mut i: usize = 0;
    while i < groups.len()
        invariant
            i <= groups@.len(),
            gv == opts_view(groups@),
            path_view(r@) == captured(gv.subrange(0, i as int)),
        decreases groups.len() - i,
    {
        assert(gv.subrange(0, i + 1).drop_last() =~= gv.subrange(0, i as int));
        assert(gv.subrange(0, i + 1).last() == gv[i as int]);
        match &groups[i] {
            Some(g) => {
                let c = copy_bytes(g);
                proof {
                    lemma_path_push(r@, c);
                }
                r.push(c);
            },
            None => {},
        }
        i = i + 1;
    }
    assert(gv.subrange(0, groups@.len() as int) =~= gv);
    Some(r)
}

/// Why the finalize pass stops.
#[derive(Debug)]
pub enum FinalizeError {
    /// A target captured in the registered file at this index is not UTF-8 text.
    NonUtf8Target { file: usize },
}

/// Entry `i` of the registry seeds the name `n`: its file name has an uppercase
/// letter and `n` is that name in lowercase.
pub open spec fn seeds(reg: Seq<(u64, Seq<Seq<u8>>)>, i: int, n: Seq<u8>) -> bool {
    0 <= i < reg.len() && reg[i].1.len() > 0 && has_upper_spec(reg[i].1.last()) && n == lower(
        reg[i].1.last(),
    )
}

/// Target `j` of file `i` names `n`, its last component.
pub open spec fn names(targets: Seq<Seq<Seq<u8>>>, i: int, j: int, n: Seq<u8>) -> bool {
    0 <= i < targets.len() && 0 <= j < targets[i].len() && n == basename_spec(targets[i][j])
}

pub open spec fn all_text(targets: Seq<Seq<Seq<u8>>>) -> bool {
    forall|i: int, j: int|
        0 <= i < targets.len() && 0 <= j < targets[i].len() ==> valid_utf8(#[trigger] targets[i][j])
}

pub open spec fn targets_view(t: Seq<Vec<Vec<u8>>>) -> Seq<Seq<Seq<u8>>> {
    t.map_values(|f: Vec<Vec<u8>>| path_view(f@))
}

fn add_name(v: &mut Vec<Vec<u8>>, n: Vec<u8>)
    requires
        path_view(old(v)@).no_duplicates(),
    ensures
        path_view(final(v)@).no_duplicates(),
        forall|x: Seq<u8>| path_view(final(v)@).contains(x) <==> (path_view(old(v)@).contains(x) || x
            == n@),
{
    let ghost before = path_view(v@);
    let mut i: usize = 0;
    while i < v.len()
        invariant
            i <= v@.len(),
            before == path_view(v@),
            before.no_duplicates(),
            forall|j: int| 0 <= j < i ==> v@[j]@ != n@,
        decreases v.len() - i,
    {
        if bytes_eq(&v[i], &n) {
            assert(before[i as int] == n@);
            return ;
        }
        i = i + 1;
    }
    let ghost nv = n@;
    v.push(n);
    assert(path_view(v@) =~= before.push(nv));
    assert(!before.contains(nv)) by {
        if before.contains(nv) {
            let j = choose|j: int| 0 <= j < before.len() && before[j] == nv;
            assert(v@[j]@ == nv);
        }
    }
    assert forall|x: Seq<u8>| path_view(v@).contains(x) <==> (before.contains(x) || x == nv) by {
        if path_view(v@).contains(x) {
            let j = choose|j: int| 0 <= j < path_view(v@).len() && path_view(v@)[j] == x;
            if j < before.len() {
                assert(before[j] == x);
            }
        }
        if before.contains(x) {
            let j = choose|j: int| 0 <= j < before.len() && before[j] == x;
            assert(path_view(v@)[j] == x);
        }
        if x == nv {
            assert(path_view(v@)[before.len() as int] == x);
        }
    }
}

/// The names that need checking: the lowercase name of each registered file whose
/// name has an uppercase letter, and the last component of each captured target.
/// `targets[i]` holds what was captured in the file of registry entry `i`.
///
/// Fails, with the first such file, exactly where a target is not UTF-8 text.
pub fn referenced_names(registry: &DedupRegistry, targets: &Vec<Vec<Vec<u8>>>) -> (r: Result<
    Vec<Vec<u8>>,
    FinalizeError,
>)
    ensures
        r is Ok <==> all_text(targets_view(targets@)),
        r matches Ok(ns) ==> path_view(ns@).no_duplicates() && forall|n: Seq<u8>|
            path_view(ns@).contains(n) <==> ((exists|i: int| seeds(registry@, i, n)) || exists|
                i: int,
                j: int,
            | names(targets_view(targets@), i, j, n)),
{
    let ghost reg = registry@;
    let ghost tv = targets_view(targets@);
    let mut out: Vec<Vec<u8>> = Vec::new();
    let mut k: usize = 0;
    while k < registry.len()
        invariant
            reg == registry@,
            k <= reg.len(),
            path_view(out@).no_duplicates(),
            forall|n: Seq<u8>| path_view(out@).contains(n) <==> exists|i: int| 0 <= i < k && seeds(reg, i, n),
        decreases reg.len() - k,
    {
        let p = registry.path_at(k);
        if p.len() > 0 && has_upper(&p[p.len() - 1]) {
            let l = ascii_lowercase(&p[p.len() - 1]);
            let ghost lv = l@;
            assert(seeds(reg, k as int, lv));
            add_name(&mut out, l);
        }
        k = k + 1;
    }
    let mut f: usize = 0;
    while f < targets.len()
        invariant
            tv == targets_view(targets@),
            f <= tv.len(),
            tv.len() == targets@.len(),
            forall|i: int, j: int| 0 <= i < f && 0 <= j < tv[i].len() ==> valid_utf8(#[trigger] tv[i][j]),
            path_view(out@).no_duplicates(),
            forall|n: Seq<u8>|
                path_view(out@).contains(n) <==> ((exists|i: int| seeds(reg, i, n)) || exists|i: int, j: int|
                    0 <= i < f && names(tv, i, j, n)),
        decreases targets.len() - f,
    {
        let ts = &targets[f];
        assert(tv[f as int] == path_view(ts@));
        let mut j: usize = 0;
        while j < ts.len()
            invariant
                tv == targets_view(targets@),
                f < tv.len(),
                tv[f as int] == path_view(ts@),
                j <= ts@.len(),
                forall|i: int, m: int| 0 <= i < f && 0 <= m < tv[i].len() ==> valid_utf8(#[trigger] tv[i][m]),
                forall|m: int| 0 <= m < j ==> valid_utf8(#[trigger] tv[f as int][m]),
                path_view(out@).no_duplicates(),
                forall|n: Seq<u8>|
                    path_view(out@).contains(n) <==> ((exists|i: int| seeds(reg, i, n)) || (exists|i: int, m: int|
                        0 <= i < f && names(tv, i, m, n)) || exists|m: int| 0 <= m < j && names(tv, f as int, m, n)),
            decreases ts.len() - j,
        {
            if !is_utf8(ts[j].as_slice()) {
                assert(!valid_utf8(tv[f as int][j as int]));
                return Err(FinalizeError::NonUtf8Target { file: f });
            }
            let b = basename(&ts[j]);
            let ghost bv = b@;
            assert(names(tv, f as int, j as int, bv));
            add_name(&mut out, b);
            j = j + 1;
        }
        f = f + 1;
    }
    Ok(out)
}

/// The index of the registry entry that holds the key.
pub open spec fn entry_index(reg: Seq<(u64, Seq<Seq<u8>>)>, key: u64) -> int {
    choose|i: int| 0 <= i < reg.len() && (#[trigger] reg[i]).0 == key
}

/// The link that the name `n` needs: where a registered file has the same name but
/// for case, a link named `n` beside it whose target is its own name.
pub open spec fn link_for(reg: Seq<(u64, Seq<Seq<u8>>)>, n: Seq<u8>) -> Option<(Seq<u8>, Seq<Seq<u8>>)> {
    if has_key(reg, dedup_key(n)) {
        let p = reg[entry_index(reg, dedup_key(n))].1;
        if p.len() > 0 && p.last() != n {
            Some((p.last(), p.drop_last().push(n)))
        } else {
            None
        }
    } else {
        None
    }
}

/// The links that the names need, in their order.
pub open spec fn links_for(reg: Seq<(u64, Seq<Seq<u8>>)>, ns: Seq<Seq<u8>>) -> Seq<
    (Seq<u8>, Seq<Seq<u8>>),
>
    decreases ns.len(),
{
    if ns.len() == 0 {
        seq![]
    } else {
        links_for(reg, ns.drop_last()) + match link_for(reg, ns.last()) {
            Some(l) => seq![l],
            None => seq![],
        }
    }
}

/// The vendor's `um/gl` directory is referred to as `GL`: a link `sdk/<headers>/um/GL`
/// whose target is `gl`.
pub open spec fn gl_link() -> (Seq<u8>, Seq<Seq<u8>>) {
    (
        seq![103u8, 108u8],
        seq![
            seq![115u8, 100u8, 107u8],
            seq![105u8, 110u8, 99u8, 108u8, 117u8, 100u8, 101u8],
            seq![117u8, 109u8],
            seq![71u8, 76u8],
        ],
    )
}

/// A link step as (target, path of the link).
pub open spec fn link_view(s: Step) -> (Seq<u8>, Seq<Seq<u8>>) {
    match s {
        Step::Link { target, link } => (target@, path_view(link@)),
        _ => (seq![], seq![]),
    }
}

/// The steps are exactly these links, in order.
pub open spec fn steps_are_links(s: Seq<Step>, ls: Seq<(Seq<u8>, Seq<Seq<u8>>)>) -> bool {
    s.len() == ls.len() && forall|i: int| 0 <= i < s.len() ==> (#[trigger] s[i]) is Link && link_view(s[i]) == ls[i]
}

fn gl_step() -> (r: Step)
    ensures
        r is Link,
        link_view(r) == gl_link(),
{
    let mut link: Vec<Vec<u8>> = Vec::new();
    link.push(from_slice(&[115u8, 100u8, 107u8]));  // `sdk`
    link.push(from_slice(&[105u8, 110u8, 99u8, 108u8, 117u8, 100u8, 101u8]));  // `include`
    link.push(from_slice(&[117u8, 109u8]));  // `um`
    link.push(from_slice(&[71u8, 76u8]));  // `GL`
    let target = from_slice(&[103u8, 108u8]);  // `gl`
    let r = Step::Link { target, link };
    assert(link_view(r).1 =~= gl_link().1);
    assert(link_view(r).0 =~= gl_link().0);
    r
}

/// Plans the links for the names: for each name whose key is registered under a
/// file of another spelling, a link with that name beside the file; then the
/// fixed `GL` link.
pub fn plan_links(registry: &DedupRegistry, names: &Vec<Vec<u8>>) -> (r: Vec<Step>)
    ensures
        steps_are_links(r@, links_for(registry@, path_view(names@)).push(gl_link())),
{
    proof {
        use_type_invariant(&*registry);
    }
    let ghost reg = registry@;
    let ghost nv = path_view(names@);
    let mut out: Vec<Step> = Vec::new();
    let mut k: usize = 0;
    while k < names.len()
        invariant
            registry.wf(),
            reg == registry@,
            nv == path_view(names@),
            k <= names@.len(),
            steps_are_links(out@, links_for(reg, nv.subrange(0, k as int))),
        decreases names.len() - k,
    {
        let n = &names[k];
        let ghost pre = nv.subrange(0, k as int);
        assert(nv.subrange(0, k + 1).drop_last() =~= pre);
        assert(nv.subrange(0, k + 1).last() == n@);
        let key = calc_lower_hash(n);
        match registry.get(key) {
            None => {},
            Some(p) => {
                proof {
                    let e = entry_index(reg, key);
                    let i = choose|i: int| 0 <= i < reg.len() && reg[i].0 == key && reg[i].1 == path_view(p@);
                    assert(e == i) by {
                        if e != i {
                            assert(reg[e].0 == key);
                        }
                    }
                }
                if p.len() > 0 {
                    let fname = &p[p.len() - 1];
                    assert(path_view(p@).last() == fname@);
                    if !bytes_eq(fname, n) {
                        let mut link: Vec<Vec<u8>> = Vec::new();
                        let mut m: usize = 0;
                        while m + 1 < p.len()
                            invariant
                                m + 1 <= p@.len(),
                                path_view(link@) == path_view(p@).subrange(0, m as int),
                            decreases p.len() - m,
                        {
                            let c = copy_bytes(&p[m]);
                            proof {
                                lemma_path_push(link@, c);
                            }
                            link.push(c);
                            m = m + 1;
                            assert(path_view(link@) =~= path_view(p@).subrange(0, m as int));
                        }
                        let c = copy_bytes(n);
                        proof {
                            lemma_path_push(link@, c);
                        }
                        link.push(c);
                        assert(path_view(link@) =~= path_view(p@).drop_last().push(n@));
                        let step = Step::Link { target: copy_bytes(fname), link };
                        let ghost o = out@;
                        out.push(step);
                        assert(steps_are_links(out@, links_for(reg, nv.subrange(0, k + 1)))) by {
                            assert(out@[o.len() as int] == step);
                        }
                    }
                }
            },
        }
        k = k + 1;
    }
    assert(nv.subrange(0, names@.len() as int) =~= nv);
    let ghost o = out@;
    let g = gl_step();
    out.push(g);
    assert(out@[o.len() as int] == g);
    out
}

/// The finalize pass as a plan: the names that `referenced_names` collects, then
/// the links that `plan_links` plans for them. With links disabled it plans
/// nothing.
pub fn finalize_plan(
    registry: &DedupRegistry,
    targets: &Vec<Vec<Vec<u8>>>,
    disable_symlinks: bool,
) -> (r: Result<
    Vec<Step>,
    FinalizeError,
>)
    ensures
        disable_symlinks ==> (r matches Ok(steps) && steps@.len() == 0),
        !disable_symlinks ==> (r is Ok <==> all_text(targets_view(targets@))),
        r matches Ok(steps) ==> disable_symlinks || exists|ns: Seq<Seq<u8>>|
            {
                &&& ns.no_duplicates()
                &&& forall|n: Seq<u8>|
                    ns.contains(n) <==> ((exists|i: int| seeds(registry@, i, n)) || exists|i: int, j: int|
                        names(targets_view(targets@), i, j, n))
                &&& steps_are_links(steps@, #[trigger] links_for(registry@, ns).push(gl_link()))
            },
{
    proof {
        use_type_invariant(&*registry);
    }
    if disable_symlinks {
        return Ok(Vec::new());
    }
    match referenced_names(registry, targets) {
        Err(e) => Err(e),
        Ok(ns) => {
            let steps = plan_links(registry, &ns);
            assert(steps_are_links(steps@, links_for(registry@, path_view(ns@)).push(gl_link())));
            Ok(steps)
        },
    }
}

} // verus!
