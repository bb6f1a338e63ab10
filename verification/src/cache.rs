//! Part compilation cache: the parameters that a part's canonical text refers
//! to (they enter the cache key with their resolved values) and the outcome of
//! a cached compilation.
use vstd::prelude::*;
use crate::digest::{sha256_hex, sha256_of, spec_hex_lower};
use crate::text::{
    chars_of, find_from, insert_sorted, occurs_at, string_of, string_views, strictly_sorted, views,
};

verus! {

broadcast use vstd::seq_lib::group_seq_properties;

/// Whether a part came from the cache or was compiled.
#[derive(Clone, Copy, Debug, PartialEq, Eq, Structural)]
pub enum CacheOutcome {
    Hit,
    Compiled,
}

/// Characters that `trim_matches` strips around a parameter id.
pub open spec fn is_trim_char(c: char) -> bool {
    c == '"' || c == ' '
}

pub open spec fn trim_start(s: Seq<char>) -> Seq<char>
    decreases s.len(),
{
    if s.len() > 0 && is_trim_char(s[0]) {
        trim_start(s.drop_first())
    } else {
        s
    }
}

pub open spec fn trim_end(s: Seq<char>) -> Seq<char>
    decreases s.len(),
{
    if s.len() > 0 && is_trim_char(s.last()) {
        trim_end(s.drop_last())
    } else {
        s
    }
}

/// `s` without leading and trailing quotes and spaces.
pub open spec fn trim_id(s: Seq<char>) -> Seq<char> {
    trim_end(trim_start(s))
}

/// First occurrence of `pat` at or after `from`.
#[verifier::opaque]
pub open spec fn find_at_or_after(s: Seq<char>, pat: Seq<char>, from: int) -> Option<int> {
    if exists|i: int| from <= i && occurs_at(s, pat, i) {
        Some(
            choose|i: int|
                from <= i && occurs_at(s, pat, i) && forall|j: int|
                    from <= j < i ==> !occurs_at(s, pat, j),
        )
    } else {
        None
    }
}

pub open spec fn param_open() -> Seq<char> {
    seq!['p', 'a', 'r', 'a', 'm', '(']
}

pub open spec fn param_close() -> Seq<char> {
    seq![')']
}

/// The (trimmed) texts between each `param(` and the next `)`, scanning from
/// `start`; the scan resumes at that `)`.
#[verifier::opaque]
pub open spec fn param_refs_from(s: Seq<char>, start: int) -> Seq<Seq<char>>
    decreases s.len() - start,
{
    if start < 0 || start > s.len() {
        Seq::empty()
    } else {
        match find_at_or_after(s, param_open(), start) {
            None => Seq::empty(),
            Some(p) => match find_at_or_after(s, param_close(), p + 6) {
                None => Seq::empty(),
                Some(e) => if start < e <= s.len() {
                    seq![trim_id(s.subrange(p + 6, e))] + param_refs_from(s, e)
                } else {
                    Seq::empty()
                },
            },
        }
    }
}

proof fn lemma_find_from_is_first(s: Seq<char>, pat: Seq<char>, from: int, i: int)
    requires
        from <= i,
        occurs_at(s, pat, i),
        forall|j: int| from <= j < i ==> !occurs_at(s, pat, j),
    ensures
        find_at_or_after(s, pat, from) == Some(i),
{
    reveal(find_at_or_after);
    let c = choose|c: int|
        from <= c && occurs_at(s, pat, c) && forall|j: int| from <= j < c ==> !occurs_at(s, pat, j);
    assert(c == i) by {
        if c < i {
        } else if c > i {
        }
    }
}

proof fn lemma_find_none(s: Seq<char>, pat: Seq<char>, from: int)
    requires
        forall|j: int| from <= j ==> !occurs_at(s, pat, j),
    ensures
        find_at_or_after(s, pat, from) is None,
{
    reveal(find_at_or_after);
}

proof fn lemma_refs_stop_open(s: Seq<char>, start: int)
    requires
        0 <= start <= s.len(),
        find_at_or_after(s, param_open(), start) is None,
    ensures
        param_refs_from(s, start) == Seq::<Seq<char>>::empty(),
{
    reveal(param_refs_from);
}

proof fn lemma_refs_stop_close(s: Seq<char>, start: int, p: int)
    requires
        0 <= start <= s.len(),
        find_at_or_after(s, param_open(), start) == Some(p),
        find_at_or_after(s, param_close(), p + 6) is None,
    ensures
        param_refs_from(s, start) == Seq::<Seq<char>>::empty(),
{
    reveal(param_refs_from);
}

proof fn lemma_refs_step(s: Seq<char>, start: int, p: int, e: int)
    requires
        0 <= start <= s.len(),
        start < e <= s.len(),
        find_at_or_after(s, param_open(), start) == Some(p),
        find_at_or_after(s, param_close(), p + 6) == Some(e),
    ensures
        param_refs_from(s, start) == seq![trim_id(s.subrange(p + 6, e))] + param_refs_from(s, e),
{
    reveal(param_refs_from);
}

fn is_trim(c: char) -> (r: bool)
    ensures
        r == is_trim_char(c),
{
    c == '"' || c == ' '
}

/// `t[a..e]` with quotes and spaces trimmed at both ends.
fn trimmed(t: &[char], a: usize, e: usize) -> (r: Vec<char>)
    requires
        a <= e <= t@.len(),
    ensures
        r@ == trim_id(t@.subrange(a as int, e as int)),
{
    let ghost w = t@.subrange(a as int, e as int);
    let mut i = a;
    while i < e && is_trim(t[i])
        invariant
            a <= i <= e,
            e <= t@.len(),
            w == t@.subrange(a as int, e as int),
            trim_start(w) == trim_start(t@.subrange(i as int, e as int)),
        decreases e - i,
    {
        proof {
            assert(t@.subrange(i as int, e as int).drop_first() =~= t@.subrange(i + 1, e as int));
        }
        i = i + 1;
    }
    let mut j = e;
    while j > i && is_trim(t[j - 1])
        invariant
            a <= i <= j <= e,
            e <= t@.len(),
            trim_end(t@.subrange(i as int, e as int)) == trim_end(t@.subrange(i as int, j as int)),
        decreases j - i,
    {
        proof {
            assert(t@.subrange(i as int, j as int).drop_last() =~= t@.subrange(i as int, j - 1));
        }
        j = j - 1;
    }
    let mut r: Vec<char> = Vec::new();
    let mut k = i;
    while k < j
        invariant
            i <= k <= j <= t@.len(),
            r@ == t@.subrange(i as int, k as int),
        decreases j - k,
    {
        r.push(t[k]);
        proof {
            assert(r@ =~= t@.subrange(i as int, k + 1));
        }
        k = k + 1;
    }
    r
}

/// The ids of the parameters that the canonical text `part_ron` refers to as
/// `param(<id>)`: sorted, without repetition, empty ids left out.
pub fn collect_param_ids(part_ron: &str) -> (ids: Vec<String>)
    ensures
        strictly_sorted(string_views(ids@)),
        forall|y: Seq<char>|
            #[trigger] string_views(ids@).contains(y) <==> (y.len() > 0 && param_refs_from(
                part_ron@,
                0,
            ).contains(y)),
{
    let s = chars_of(part_ron);
    let open_pat: Vec<char> = vec!['p', 'a', 'r', 'a', 'm', '('];
    let close_pat: Vec<char> = vec![')'];
    assert(open_pat@ =~= param_open());
    assert(close_pat@ =~= param_close());
    let mut sorted: Vec<Vec<char>> = Vec::new();
    let mut start: usize = 0;
    let ghost mut done: Seq<Seq<char>> = Seq::empty();
    loop
        invariant
            start <= s@.len(),
            s@ == part_ron@,
            open_pat@ == param_open(),
            close_pat@ == param_close(),
            param_refs_from(s@, 0) == done + param_refs_from(s@, start as int),
            strictly_sorted(views(sorted@)),
            forall|y: Seq<char>|
                #[trigger] views(sorted@).contains(y) <==> (y.len() > 0 && done.contains(y)),
        ensures
            param_refs_from(s@, 0) == done,
            strictly_sorted(views(sorted@)),
            forall|y: Seq<char>|
                #[trigger] views(sorted@).contains(y) <==> (y.len() > 0 && done.contains(y)),
        decreases s@.len() + 1 - start,
    {
        let p = match find_from(s.as_slice(), open_pat.as_slice(), start) {
            Some(p) => p,
            None => {
                proof {
                    lemma_find_none(s@, param_open(), start as int);
                    lemma_refs_stop_open(s@, start as int);
                    assert(done + Seq::<Seq<char>>::empty() =~= done);
                }
                break;
            },
        };
        proof {
            lemma_find_from_is_first(s@, param_open(), start as int, p as int);
            assert(param_open().len() == 6);
            assert(occurs_at(s@, param_open(), p as int));
            assert(p + 6 <= s@.len());
        }
        let slen = s.len();
        assert(p + 6 <= slen);
        let e = match find_from(s.as_slice(), close_pat.as_slice(), p + 6) {
            Some(e) => e,
            None => {
                proof {
                    lemma_find_none(s@, param_close(), p + 6);
                    lemma_refs_stop_close(s@, start as int, p as int);
                    assert(done + Seq::<Seq<char>>::empty() =~= done);
                }
                break;
            },
        };
        proof {
            lemma_find_from_is_first(s@, param_close(), p + 6, e as int);
        }
        let tok = trimmed(s.as_slice(), p + 6, e);
        proof {
            let ghost rest = param_refs_from(s@, e as int);
            lemma_refs_step(s@, start as int, p as int, e as int);
            assert(param_refs_from(s@, start as int) == seq![tok@] + rest);
            assert(done + (seq![tok@] + rest) =~= done.push(tok@) + rest);
        }
        let ghost old_done = done;
        proof {
            done = done.push(tok@);
        }
        if tok.len() > 0 {
            insert_sorted(&mut sorted, tok);
        }
        proof {
            assert forall|y: Seq<char>|
                #[trigger] views(sorted@).contains(y) <==> (y.len() > 0 && done.contains(y)) by {
                assert(done.contains(y) <==> (old_done.contains(y) || y == done.last()));
            }
        }
        start = e;
    }
    let mut ids: Vec<String> = Vec::new();
    let mut k: usize = 0;
    while k < sorted.len()
        invariant
            k <= sorted@.len(),
            ids@.len() == k,
            string_views(ids@) == views(sorted@).take(k as int),
        decreases sorted@.len() - k,
    {
        let st = string_of(sorted[k].as_slice());
        assert(st@ == views(sorted@)[k as int]);
        let ghost old_ids = ids@;
        ids.push(st);
        proof {
            assert(ids@ == old_ids.push(st));
            assert(string_views(ids@)[k as int] == views(sorted@)[k as int]);
            assert(string_views(ids@) =~= views(sorted@).take(k + 1));
        }
        k = k + 1;
    }
    proof {
        assert(views(sorted@).take(k as int) =~= views(sorted@));
    }
    ids
}


// ---------------------------------------------------------------- cache keys

/// `tag + id + "=" + value` for each `(id, value)` in order.
pub open spec fn tagged(tag: Seq<char>, items: Seq<(Seq<char>, Seq<char>)>) -> Seq<char>
    decreases items.len(),
{
    if items.len() == 0 {
        Seq::empty()
    } else {
        tagged(tag, items.drop_last()) + tag + items.last().0 + "="@ + items.last().1
    }
}

pub open spec fn pair_views(v: Seq<(String, String)>) -> Seq<(Seq<char>, Seq<char>)> {
    v.map_values(|p: (String, String)| (p.0@, p.1@))
}

/// The text hashed into a part's cache key: the tool version, the part's
/// canonical text, and the resolved value of each parameter it refers to.
pub open spec fn part_key_text(
    version: Seq<char>,
    part_ron: Seq<char>,
    params: Seq<(Seq<char>, Seq<char>)>,
) -> Seq<char> {
    "adc:"@ + version + "|"@ + part_ron + tagged("|"@, params)
}

/// The text hashed into an assertion's result cache key: the tool version,
/// the assertion's canonical text, the resolved parameters it refers to, the
/// assembly when the check depends on the placement, and the cache key of
/// each part that it involves.
pub open spec fn result_key_text(
    version: Seq<char>,
    assertion_ron: Seq<char>,
    params: Seq<(Seq<char>, Seq<char>)>,
    assembly_ron: Option<Seq<char>>,
    part_keys: Seq<(Seq<char>, Seq<char>)>,
) -> Seq<char> {
    "adcres:"@ + version + "|"@ + assertion_ron + tagged("|p:"@, params) + match assembly_ron {
        Some(a) => "|assy:"@ + a,
        None => Seq::empty(),
    } + tagged("|part:"@, part_keys)
}

/// Appends `tag + id + "=" + value` for each item to `s`.
fn push_tagged(s: &mut String, tag: &str, items: &Vec<(String, String)>)
    ensures
        final(s)@ == old(s)@ + tagged(tag@, pair_views(items@)),
{
    let ghost s0 = s@;
    let ghost pv = pair_views(items@);
    let mut i: usize = 0;
    while i < items.len()
        invariant
            i <= items@.len(),
            pv == pair_views(items@),
            s@ == s0 + tagged(tag@, pv.take(i as int)),
        decreases items@.len() - i,
    {
        proof {
            assert(pv.take(i + 1).drop_last() =~= pv.take(i as int));
        }
        let t = s.clone();
        let t = t.concat(tag);
        let t = t.concat(items[i].0.as_str());
        let t = t.concat("=");
        let t = t.concat(items[i].1.as_str());
        *s = t;
        i = i + 1;
    }
    proof {
        assert(pv.take(items@.len() as int) =~= pv);
    }
}

/// The cache key of a compiled part: lowercase hex SHA-256 of
/// `adc:<version>|<part>` followed by `|<id>=<value>` for each referenced
/// parameter (in the order of `collect_param_ids`).
pub fn part_cache_key(version: &str, part_ron: &str, params: &Vec<(String, String)>) -> (k: String)
    ensures
        k@ == spec_hex_lower(sha256_of(part_key_text(version@, part_ron@, pair_views(params@)))),
{
    let mut t = "adc:".to_owned();
    t = t.concat(version);
    t = t.concat("|");
    t = t.concat(part_ron);
    push_tagged(&mut t, "|", params);
    sha256_hex(t.as_str())
}

/// The cache key of a check result: lowercase hex SHA-256 of
/// `adcres:<version>|<assertion>`, `|p:<id>=<value>` per referenced
/// parameter, `|assy:<assembly>` when the check depends on the placement,
/// and `|part:<id>=<part key>` per involved part.
pub fn result_cache_key(
    version: &str,
    assertion_ron: &str,
    params: &Vec<(String, String)>,
    assembly_ron: Option<&str>,
    part_keys: &Vec<(String, String)>,
) -> (k: String)
    ensures
        k@ == spec_hex_lower(
            sha256_of(
                result_key_text(
                    version@,
                    assertion_ron@,
                    pair_views(params@),
                    match assembly_ron {
                        Some(a) => Some(a@),
                        None => None,
                    },
                    pair_views(part_keys@),
                ),
            ),
        ),
{
    let mut t = "adcres:".to_owned();
    t = t.concat(version);
    t = t.concat("|");
    t = t.concat(assertion_ron);
    push_tagged(&mut t, "|p:", params);
    let ghost head = t@;
    let ghost assy: Seq<char> = match assembly_ron {
        Some(a) => "|assy:"@ + a@,
        None => Seq::empty(),
    };
    match assembly_ron {
        Some(a) => {
            t = t.concat("|assy:");
            t = t.concat(a);
        },
        None => {},
    }
    assert(t@ =~= head + assy);
    push_tagged(&mut t, "|part:", part_keys);
    sha256_hex(t.as_str())
}


proof fn lemma_tagged_concat(tag: Seq<char>, a: Seq<(Seq<char>, Seq<char>)>, b: Seq<(Seq<char>, Seq<char>)>)
    ensures
        tagged(tag, a + b) == tagged(tag, a) + tagged(tag, b),
    decreases b.len(),
{
    if b.len() == 0 {
        assert(a + b =~= a);
        assert(tagged(tag, a) + tagged(tag, b) =~= tagged(tag, a));
    } else {
        let b0 = b.drop_last();
        lemma_tagged_concat(tag, a, b0);
        assert((a + b).drop_last() =~= a + b0);
        assert((a + b).last() == b.last());
        assert(tagged(tag, a + b) =~= tagged(tag, a) + tagged(tag, b));
    }
}

/// The tagged text around item `i`: what comes before it, its own
/// `tag + id + "=" + value`, and what comes after it.
proof fn lemma_tagged_split(tag: Seq<char>, items: Seq<(Seq<char>, Seq<char>)>, i: int)
    requires
        0 <= i < items.len(),
    ensures
        tagged(tag, items) == tagged(tag, items.take(i)) + (tag + items[i].0 + "="@ + items[i].1)
            + tagged(tag, items.skip(i + 1)),
{
    let one = seq![items[i]];
    assert(items =~= items.take(i) + one + items.skip(i + 1));
    lemma_tagged_concat(tag, items.take(i) + one, items.skip(i + 1));
    lemma_tagged_concat(tag, items.take(i), one);
    assert(one.drop_last() =~= Seq::<(Seq<char>, Seq<char>)>::empty());
    assert(tagged(tag, one) =~= tag + items[i].0 + "="@ + items[i].1);
}

/// Texts that agree before and after a middle part agree in the middle.
proof fn lemma_middle_cancel(x: Seq<char>, k1: Seq<char>, k2: Seq<char>, y: Seq<char>)
    requires
        x + k1 + y == x + k2 + y,
    ensures
        k1 == k2,
{
    let t1 = x + k1 + y;
    let t2 = x + k2 + y;
    assert(t1.len() == t2.len());
    assert forall|j: int| 0 <= j < k1.len() implies k1[j] == k2[j] by {
        assert(t1[x.len() + j] == k1[j]);
        assert(t2[x.len() + j] == k2[j]);
    }
    assert(k1 =~= k2);
}

/// Two item lists that differ only in the value of item `i` give different
/// tagged texts, within any common surroundings.
#[verifier::spinoff_prover]
#[verifier::rlimit(50)]
proof fn lemma_tagged_separates(
    before: Seq<char>,
    tag: Seq<char>,
    items1: Seq<(Seq<char>, Seq<char>)>,
    items2: Seq<(Seq<char>, Seq<char>)>,
    after: Seq<char>,
    i: int,
)
    requires
        one_value_differs(items1, items2, i),
    ensures
        before + tagged(tag, items1) + after != before + tagged(tag, items2) + after,
{
    lemma_tagged_split(tag, items1, i);
    lemma_tagged_split(tag, items2, i);
    assert(items1.take(i) =~= items2.take(i));
    assert(items1.skip(i + 1) =~= items2.skip(i + 1));
    let a = tagged(tag, items1.take(i));
    let c = tagged(tag, items1.skip(i + 1));
    let m = tag + items1[i].0 + "="@;
    assert(tagged(tag, items1) == a + (m + items1[i].1) + c);
    assert(tagged(tag, items2) == a + (m + items2[i].1) + c);
    let x = before + a + m;
    let y = c + after;
    assert(before + (a + (m + items1[i].1) + c) + after =~= x + items1[i].1 + y);
    assert(before + (a + (m + items2[i].1) + c) + after =~= x + items2[i].1 + y);
    if x + items1[i].1 + y == x + items2[i].1 + y {
        lemma_middle_cancel(x, items1[i].1, items2[i].1, y);
    }
}

/// `items1` and `items2` are the same list but for the value of item `i`.
pub open spec fn one_value_differs(
    items1: Seq<(Seq<char>, Seq<char>)>,
    items2: Seq<(Seq<char>, Seq<char>)>,
    i: int,
) -> bool {
    &&& items1.len() == items2.len()
    &&& 0 <= i < items1.len()
    &&& forall|j: int| 0 <= j < items1.len() && j != i ==> items1[j] == items2[j]
    &&& items1[i].0 == items2[i].0
    &&& items1[i].1 != items2[i].1
}

/// Law (part keys see every parameter): two parts with the same canonical
/// text whose referenced parameters differ in the value of any one
/// parameter, at any position, are hashed from different texts.
pub proof fn law_part_key_text_separates_params(
    version: Seq<char>,
    part_ron: Seq<char>,
    params1: Seq<(Seq<char>, Seq<char>)>,
    params2: Seq<(Seq<char>, Seq<char>)>,
    i: int,
)
    requires
        one_value_differs(params1, params2, i),
    ensures
        part_key_text(version, part_ron, params1) != part_key_text(version, part_ron, params2),
{
    let before = "adc:"@ + version + "|"@ + part_ron;
    lemma_tagged_separates(before, "|"@, params1, params2, Seq::empty(), i);
    assert(part_key_text(version, part_ron, params1) =~= before + tagged("|"@, params1) + Seq::<
        char,
    >::empty());
    assert(part_key_text(version, part_ron, params2) =~= before + tagged("|"@, params2) + Seq::<
        char,
    >::empty());
}

pub open spec fn assembly_text(assembly_ron: Option<Seq<char>>) -> Seq<char> {
    match assembly_ron {
        Some(a) => "|assy:"@ + a,
        None => Seq::empty(),
    }
}

/// Law (result keys see every dependency): two result key texts differ
/// when the value of any one referenced parameter differs, when the cache
/// key of any one involved part differs (at any position), or when the
/// assembly differs (or is present in only one of them).
pub proof fn law_result_key_text_separates_dependencies(
    version: Seq<char>,
    assertion_ron: Seq<char>,
    params1: Seq<(Seq<char>, Seq<char>)>,
    params2: Seq<(Seq<char>, Seq<char>)>,
    assembly1: Option<Seq<char>>,
    assembly2: Option<Seq<char>>,
    parts1: Seq<(Seq<char>, Seq<char>)>,
    parts2: Seq<(Seq<char>, Seq<char>)>,
    i: int,
)
    ensures
        one_value_differs(params1, params2, i) && assembly1 == assembly2 && parts1 == parts2
            ==> result_key_text(version, assertion_ron, params1, assembly1, parts1) != result_key_text(
            version,
            assertion_ron,
            params2,
            assembly2,
            parts2,
        ),
        one_value_differs(parts1, parts2, i) && params1 == params2 && assembly1 == assembly2
            ==> result_key_text(version, assertion_ron, params1, assembly1, parts1) != result_key_text(
            version,
            assertion_ron,
            params2,
            assembly2,
            parts2,
        ),
        assembly1 != assembly2 && params1 == params2 && parts1 == parts2 ==> result_key_text(
            version,
            assertion_ron,
            params1,
            assembly1,
            parts1,
        ) != result_key_text(version, assertion_ron, params2, assembly2, parts2),
{
    let head = "adcres:"@ + version + "|"@ + assertion_ron;
    let t1 = result_key_text(version, assertion_ron, params1, assembly1, parts1);
    let t2 = result_key_text(version, assertion_ron, params2, assembly2, parts2);
    assert(t1 =~= head + tagged("|p:"@, params1) + (assembly_text(assembly1) + tagged(
        "|part:"@,
        parts1,
    )));
    assert(t2 =~= head + tagged("|p:"@, params2) + (assembly_text(assembly2) + tagged(
        "|part:"@,
        parts2,
    )));
    if one_value_differs(params1, params2, i) && assembly1 == assembly2 && parts1 == parts2 {
        lemma_tagged_separates(
            head,
            "|p:"@,
            params1,
            params2,
            assembly_text(assembly1) + tagged("|part:"@, parts1),
            i,
        );
    }
    if one_value_differs(parts1, parts2, i) && params1 == params2 && assembly1 == assembly2 {
        let before = head + tagged("|p:"@, params1) + assembly_text(assembly1);
        lemma_tagged_separates(before, "|part:"@, parts1, parts2, Seq::empty(), i);
        assert(t1 =~= before + tagged("|part:"@, parts1) + Seq::<char>::empty());
        assert(t2 =~= before + tagged("|part:"@, parts2) + Seq::<char>::empty());
    }
    if assembly1 != assembly2 && params1 == params2 && parts1 == parts2 {
        reveal_strlit("|assy:");
        let x = head + tagged("|p:"@, params1);
        let y = tagged("|part:"@, parts1);
        assert(t1 =~= x + assembly_text(assembly1) + y);
        assert(t2 =~= x + assembly_text(assembly2) + y);
        if t1 == t2 {
            lemma_middle_cancel(x, assembly_text(assembly1), assembly_text(assembly2), y);
            match (assembly1, assembly2) {
                (Some(a), Some(b)) => {
                    assert(a =~= assembly_text(assembly1).skip(6));
                    assert(b =~= assembly_text(assembly2).skip(6));
                },
                _ => {},
            }
        }
    }
}


proof fn lemma_trim_start(s: Seq<char>)
    ensures
        trim_start(s).len() > 0 ==> !is_trim_char(trim_start(s)[0]),
        s.len() > 0 && !is_trim_char(s[0]) ==> trim_start(s) == s,
        trim_start(s).len() <= s.len(),
        trim_start(s) == s.skip(s.len() - trim_start(s).len()),
    decreases s.len(),
{
    if s.len() > 0 && is_trim_char(s[0]) {
        lemma_trim_start(s.drop_first());
        assert(s.drop_first().skip(s.drop_first().len() - trim_start(s.drop_first()).len()) =~= s.skip(
            s.len() - trim_start(s).len(),
        ));
    } else {
        assert(s.skip(0) =~= s);
    }
}

proof fn lemma_trim_end(s: Seq<char>)
    ensures
        trim_end(s).len() > 0 ==> !is_trim_char(trim_end(s).last()),
        s.len() > 0 && !is_trim_char(s.last()) ==> trim_end(s) == s,
        trim_end(s).len() <= s.len(),
        trim_end(s) == s.take(trim_end(s).len() as int),
        s.len() > 0 && !is_trim_char(s[0]) ==> trim_end(s).len() > 0 && trim_end(s)[0] == s[0],
    decreases s.len(),
{
    if s.len() > 0 && is_trim_char(s.last()) {
        lemma_trim_end(s.drop_last());
        assert(s.drop_last().take(trim_end(s.drop_last()).len() as int) =~= s.take(
            trim_end(s).len() as int,
        ));
    } else {
        assert(s.take(s.len() as int) =~= s);
    }
}

/// Law (parameter ids): an id is its text between `param(` and `)` without
/// the quotes and spaces around it: a trimmed id neither starts nor ends
/// with a quote or a space, and a text with neither is its own id.
pub proof fn law_param_id_trimming(s: Seq<char>)
    ensures
        trim_id(s).len() > 0 ==> !is_trim_char(trim_id(s)[0]) && !is_trim_char(trim_id(s).last()),
        s.len() > 0 && !is_trim_char(s[0]) && !is_trim_char(s.last()) ==> trim_id(s) == s,
        forall|k: int| 0 <= k < trim_id(s).len() ==> exists|j: int| 0 <= j < s.len() && s[j] == #[trigger] trim_id(s)[k],
{
    lemma_trim_start(s);
    let t = trim_start(s);
    lemma_trim_end(t);
    let u = trim_end(t);
    if u.len() > 0 {
        assert(u[0] == t[0]);
    }
    if s.len() > 0 && !is_trim_char(s[0]) && !is_trim_char(s.last()) {
        assert(t == s);
    }
    assert forall|k: int| 0 <= k < u.len() implies exists|j: int| 0 <= j < s.len() && s[j] == #[trigger] u[k] by {
        let off = s.len() - t.len();
        assert(u[k] == t[k]);
        assert(t[k] == s[off + k]);
    }
}

} // verus!
