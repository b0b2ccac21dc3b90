//! Which npm packages to vendor: package specs from the command line and from manifests.
use vstd::prelude::*;

use crate::text::{characters, last_index_of, slice_text};

verus! {

/// A package spec as it is written down: a name and a version range.
#[verifier::ext_equal]
pub struct SpecText {
    pub name: Seq<char>,
    pub range: Seq<char>,
}

/// A package to vendor from the npm registry.
#[derive(Debug)]
pub struct PackageSpec {
    name: String,
    range: String,
}

impl View for PackageSpec {
    type V = SpecText;

    closed spec fn view(&self) -> SpecText {
        SpecText { name: self.name@, range: self.range@ }
    }
}

impl Clone for PackageSpec {
    fn clone(&self) -> (copy: Self)
        ensures
            copy@ == self@,
    {
        PackageSpec { name: self.name.clone(), range: self.range.clone() }
    }
}

impl PackageSpec {
    /// The package `name` in a version that `range` admits.
    pub fn npm(name: &str, range: &str) -> (spec: Self)
        ensures
            spec@ == (SpecText { name: name@, range: range@ }),
    {
        PackageSpec { name: name.to_owned(), range: range.to_owned() }
    }

    /// The name of the package.
    pub fn name(&self) -> (name: &str)
        ensures
            name@ == self@.name,
    {
        self.name.as_str()
    }

    /// The range of versions that are admitted.
    pub fn range(&self) -> (range: &str)
        ensures
            range@ == self@.range,
    {
        self.range.as_str()
    }
}

/// Why a manifest gives no specs, as a reason in words.
#[verifier::ext_equal]
pub enum ManifestFailure {
    Unread(Seq<char>),
    Malformed(Seq<char>),
}

/// Why a manifest gives no specs.
#[derive(Debug)]
pub enum ManifestError {
    /// It was not read, for this reason.
    Unread(String),
    /// It is no JSON, for this reason.
    Malformed(String),
}

impl View for ManifestError {
    type V = ManifestFailure;

    open spec fn view(&self) -> ManifestFailure {
        match self {
            ManifestError::Unread(reason) => ManifestFailure::Unread(reason@),
            ManifestError::Malformed(reason) => ManifestFailure::Malformed(reason@),
        }
    }
}

impl ManifestError {
    /// The error in words.
    pub fn message(&self) -> (text: &str)
        ensures
            match self@ {
                ManifestFailure::Unread(reason) => text@ == reason,
                ManifestFailure::Malformed(reason) => text@ == reason,
            },
    {
        match self {
            ManifestError::Unread(reason) => reason.as_str(),
            ManifestError::Malformed(reason) => reason.as_str(),
        }
    }
}

/// Why there is no set of packages to vendor.
#[derive(Debug)]
pub enum VendorError {
    /// Neither package specs nor a manifest with dependencies were given.
    NoSource,
    /// A manifest gives no specs.
    Manifest(ManifestError),
}

impl VendorError {
    /// The error in words.
    pub fn message(&self) -> (text: String)
        ensures
            match self {
                VendorError::NoSource => text@
                    == "vendor: give package specs (e.g. lit@^3) or --manifest <package.json>"@,
                VendorError::Manifest(error) => match error@ {
                    ManifestFailure::Unread(reason) => text@ == reason,
                    ManifestFailure::Malformed(reason) => text@ == reason,
                },
            },
    {
        match self {
            VendorError::NoSource =>
                "vendor: give package specs (e.g. lit@^3) or --manifest <package.json>".to_owned(),
            VendorError::Manifest(error) => error.message().to_owned(),
        }
    }
}

/// Position of the last `c` in `text`, or -1.
pub open spec fn last_position(text: Seq<char>, c: char) -> int
    decreases text.len(),
{
    if text.len() == 0 {
        -1
    } else if text.last() == c {
        text.len() - 1
    } else {
        last_position(text.drop_last(), c)
    }
}

/// The spec that `text` writes down: what stands before and after the last `@`. Where there is
/// none but at the very beginning, which belongs to a scope, all of it is the name and any version
/// is admitted.
pub open spec fn parsed_spec(text: Seq<char>) -> SpecText {
    let i = last_position(text, '@');
    if i > 0 {
        SpecText { name: text.take(i), range: text.skip(i + 1) }
    } else {
        SpecText { name: text, range: "*"@ }
    }
}

/// The texts of strings.
pub open spec fn texts(strings: Seq<String>) -> Seq<Seq<char>> {
    strings.map_values(|s: String| s@)
}

/// The specs as they are written down.
pub open spec fn spec_texts(specs: Seq<PackageSpec>) -> Seq<SpecText> {
    specs.map_values(|s: PackageSpec| s@)
}

/// The specs that are asked for: those given as text, then those of each manifest.
pub open spec fn requested(
    packages: Seq<Seq<char>>,
    manifests: Seq<Seq<SpecText>>,
) -> Seq<SpecText> {
    packages.map_values(|p: Seq<char>| parsed_spec(p)) + manifests.flatten()
}

/// Whether one of the specs has this name.
pub open spec fn has_name(specs: Seq<SpecText>, name: Seq<char>) -> bool {
    exists|i: int| 0 <= i < specs.len() && (#[trigger] specs[i]).name == name
}

/// The specs, without those whose name an earlier one has.
pub open spec fn first_of_each_name(specs: Seq<SpecText>) -> Seq<SpecText>
    decreases specs.len(),
{
    if specs.len() == 0 {
        specs
    } else {
        let kept = first_of_each_name(specs.drop_last());
        if has_name(specs.drop_last(), specs.last().name) {
            kept
        } else {
            kept.push(specs.last())
        }
    }
}

/// How specs are settled on where `all` are asked for: the first of each name, or an error if there
/// are none and there have to be some.
pub open spec fn settles(
    all: Seq<SpecText>,
    require_nonempty: bool,
    specs: Result<Vec<PackageSpec>, VendorError>,
) -> bool {
    if require_nonempty && all.len() == 0 {
        specs matches Err(error) && error is NoSource
    } else {
        specs matches Ok(specs) && spec_texts(specs@) == first_of_each_name(all)
    }
}

/// What a manifest gave: its specs, or why there are none.
pub open spec fn outcome_text(outcome: Result<Vec<PackageSpec>, ManifestError>) -> Result<
    Seq<SpecText>,
    ManifestFailure,
> {
    match outcome {
        Ok(specs) => Ok(spec_texts(specs@)),
        Err(error) => Err(error@),
    }
}

/// What manifests gave, in their order.
pub open spec fn outcome_texts(
    outcomes: Seq<Result<Vec<PackageSpec>, ManifestError>>,
) -> Seq<Result<Seq<SpecText>, ManifestFailure>> {
    outcomes.map_values(|o: Result<Vec<PackageSpec>, ManifestError>| outcome_text(o))
}

/// The first failure among what manifests gave, if there is one.
pub open spec fn first_failure(
    outcomes: Seq<Result<Seq<SpecText>, ManifestFailure>>,
) -> Option<ManifestFailure>
    decreases outcomes.len(),
{
    if outcomes.len() == 0 {
        None
    } else {
        match outcomes[0] {
            Ok(_) => first_failure(outcomes.skip(1)),
            Err(failure) => Some(failure),
        }
    }
}

/// The specs that manifests gave, one list for each, if none of them failed.
pub open spec fn given_specs(
    outcomes: Seq<Result<Seq<SpecText>, ManifestFailure>>,
) -> Seq<Seq<SpecText>> {
    outcomes.map_values(|o: Result<Seq<SpecText>, ManifestFailure>| o->Ok_0)
}

/// How specs are settled on from given specs and what manifests gave: the first failing manifest
/// decides, whatever else is given.
pub open spec fn vendors(
    packages: Seq<Seq<char>>,
    outcomes: Seq<Result<Seq<SpecText>, ManifestFailure>>,
    require_nonempty: bool,
    specs: Result<Vec<PackageSpec>, VendorError>,
) -> bool {
    match first_failure(outcomes) {
        Some(failure) => specs matches Err(VendorError::Manifest(error)) && error@ == failure,
        None => settles(requested(packages, given_specs(outcomes)), require_nonempty, specs),
    }
}

/// What [`last_index_of`] finds is the last position.
proof fn lemma_last_position(text: Seq<char>, c: char, i: int)
    requires
        -1 <= i < text.len(),
        i >= 0 ==> text[i] == c,
        forall|j: int| i < j < text.len() ==> text[j] != c,
    ensures
        last_position(text, c) == i,
    decreases text.len(),
{
    if text.len() > 0 && i < text.len() - 1 {
        lemma_last_position(text.drop_last(), c, i);
    }
}

/// Reads one package spec: `name`, `name@range`, `@scope/name` or `@scope/name@range`.
pub fn parse_spec(p: &str) -> (spec: PackageSpec)
    ensures
        spec@ == parsed_spec(p@),
{
    let chars: Vec<char> = characters(p);
    let end: usize = chars.len();
    match last_index_of(&chars, '@') {
        Some(i) => {
            proof {
                lemma_last_position(p@, '@', i as int);
            }
            if i > 0 {
                let name: String = slice_text(&chars, 0, i);
                let range: String = slice_text(&chars, i + 1, end);
                assert(p@.subrange(0, i as int) == p@.take(i as int));
                assert(p@.subrange(i + 1, p@.len() as int) == p@.skip(i + 1));
                PackageSpec { name, range }
            } else {
                PackageSpec::npm(p, "*")
            }
        },
        None => {
            proof {
                lemma_last_position(p@, '@', -1);
            }
            PackageSpec::npm(p, "*")
        },
    }
}

/// What the text of a `package.json` has under `dependencies`: names and ranges; or why it is no
/// JSON, in words.
pub uninterp spec fn manifest_entries(
    text: Seq<char>,
) -> Result<Seq<(Seq<char>, Seq<char>)>, Seq<char>>;

/// The texts of names and ranges.
pub open spec fn entry_texts(entries: Seq<(String, String)>) -> Seq<(Seq<char>, Seq<char>)> {
    entries.map_values(|e: (String, String)| (e.0@, e.1@))
}

/// What a manifest gives: it is its text, or the reason why it was not read.
pub open spec fn manifest_outcome(manifest: Result<String, String>) -> Result<
    Seq<SpecText>,
    ManifestFailure,
> {
    match manifest {
        Ok(text) => match manifest_entries(text@) {
            Ok(entries) => Ok(entry_specs(entries)),
            Err(reason) => Err(ManifestFailure::Malformed(reason)),
        },
        Err(reason) => Err(ManifestFailure::Unread(reason@)),
    }
}

/// What manifests give, in their order.
pub open spec fn manifest_outcomes(
    manifests: Seq<Result<String, String>>,
) -> Seq<Result<Seq<SpecText>, ManifestFailure>> {
    manifests.map_values(|m: Result<String, String>| manifest_outcome(m))
}

/// The specs that entries of a manifest write down, in their order.
pub open spec fn entry_specs(entries: Seq<(Seq<char>, Seq<char>)>) -> Seq<SpecText> {
    entries.map_values(|e: (Seq<char>, Seq<char>)| SpecText { name: e.0, range: e.1 })
}

/// `serde_json::from_str` reads the text of a `package.json` as a JSON value, and
/// `npm_utils::package_json::manifest::dependencies` gives the string entries of its `dependencies`
/// object, sorted by name, or nothing where there is no such object. Where the text is no JSON, the
/// error comes in serde_json's words. The contract claims that all of this depends on the text
/// alone, and leaves the JSON grammar unsaid.
#[verifier::external_body]
pub(crate) fn manifest_dependencies(text: &str) -> (entries: Result<
    Vec<(String, String)>,
    String,
>)
    ensures
        match entries {
            Ok(found) => manifest_entries(text@) == Ok::<Seq<(Seq<char>, Seq<char>)>, Seq<char>>(
                entry_texts(found@),
            ),
            Err(message) => manifest_entries(text@) == Err::<
                Seq<(Seq<char>, Seq<char>)>,
                Seq<char>,
            >(message@),
        },
{
    match serde_json::from_str::<serde_json::Value>(text) {
        Ok(doc) => Ok(npm_utils::package_json::manifest::dependencies(&doc)),
        Err(error) => Err(error.to_string()),
    }
}

/// The specs of a manifest's entries, one for each, in their order.
pub fn specs_from_entries(entries: &[(String, String)]) -> (specs: Vec<PackageSpec>)
    ensures
        spec_texts(specs@) == entry_specs(entry_texts(entries@)),
{
    let ghost all = entry_specs(entry_texts(entries@));
    let mut specs: Vec<PackageSpec> = Vec::new();
    let mut i: usize = 0;
    while i < entries.len()
        invariant
            i <= entries@.len(),
            all == entry_specs(entry_texts(entries@)),
            spec_texts(specs@) == all.take(i as int),
        decreases entries@.len() - i,
    {
        let ghost before = specs@;
        specs.push(PackageSpec::npm(entries[i].0.as_str(), entries[i].1.as_str()));
        assert(spec_texts(specs@) == spec_texts(before).push(all[i as int]));
        assert(all.take(i + 1) == all.take(i as int).push(all[i as int]));
        i = i + 1;
    }
    assert(all.take(i as int) == all);
    specs
}

/// The specs that the text of a `package.json` asks for: its `dependencies`.
pub fn specs_from_manifest(text: &str) -> (specs: Result<Vec<PackageSpec>, ManifestError>)
    ensures
        match manifest_entries(text@) {
            Ok(entries) => specs matches Ok(specs) && spec_texts(specs@) == entry_specs(entries),
            Err(message) => specs matches Err(error) && error@ == ManifestFailure::Malformed(
                message,
            ),
        },
{
    match manifest_dependencies(text) {
        Ok(entries) => Ok(specs_from_entries(entries.as_slice())),
        Err(message) => Err(ManifestError::Malformed(message)),
    }
}

/// Removing repetitions neither loses nor adds a name.
pub proof fn law_every_name_stays(specs: Seq<SpecText>, name: Seq<char>)
    ensures
        has_name(first_of_each_name(specs), name) == has_name(specs, name),
    decreases specs.len(),
{
    if specs.len() > 0 {
        let earlier = specs.drop_last();
        let kept = first_of_each_name(earlier);
        let all = first_of_each_name(specs);
        law_every_name_stays(earlier, name);
        law_every_name_stays(earlier, specs.last().name);
        if has_name(specs, name) {
            let i = choose|i: int| 0 <= i < specs.len() && (#[trigger] specs[i]).name == name;
            if i < earlier.len() {
                assert(earlier[i].name == name);
                let k = choose|k: int| 0 <= k < kept.len() && (#[trigger] kept[k]).name == name;
                assert(all[k].name == name);
            } else if !has_name(earlier, name) {
                assert(all[kept.len() as int].name == name);
            } else {
                let k = choose|k: int| 0 <= k < kept.len() && (#[trigger] kept[k]).name == name;
                assert(all[k].name == name);
            }
        }
        if has_name(all, name) {
            let k = choose|k: int| 0 <= k < all.len() && (#[trigger] all[k]).name == name;
            if k < kept.len() {
                assert(kept[k].name == name);
                let i = choose|i: int|
                    0 <= i < earlier.len() && (#[trigger] earlier[i]).name == name;
                assert(specs[i].name == name);
            } else {
                assert(specs[specs.len() - 1].name == name);
            }
        }
    }
}

/// Whether one of the specs has this name.
fn names_one(specs: &Vec<PackageSpec>, name: &String) -> (found: bool)
    ensures
        found == has_name(spec_texts(specs@), name@),
{
    let mut i: usize = 0;
    while i < specs.len()
        invariant
            i <= specs@.len(),
            forall|j: int| 0 <= j < i ==> (#[trigger] specs@[j])@.name != name@,
        decreases specs@.len() - i,
    {
        if specs[i].name == *name {
            assert(spec_texts(specs@)[i as int].name == name@);
            return true;
        }
        i = i + 1;
    }
    assert forall|j: int| 0 <= j < spec_texts(specs@).len() implies (#[trigger] spec_texts(
        specs@,
    )[j]).name != name@ by {
        assert(specs@[j]@.name != name@);
    }
    false
}

/// The specs to vendor: those that `packages` write down, then the dependencies of each manifest,
/// without those whose name came before. With `require_nonempty` it is an error if there are none.
pub fn build_vendor_specs(
    packages: &[String],
    manifests: &[Vec<PackageSpec>],
    require_nonempty: bool,
) -> (specs: Result<Vec<PackageSpec>, VendorError>)
    ensures
        settles(
            requested(
                texts(packages@),
                manifests@.map_values(|m: Vec<PackageSpec>| spec_texts(m@)),
            ),
            require_nonempty,
            specs,
        ),
{
    let ghost parsed = texts(packages@).map_values(|p: Seq<char>| parsed_spec(p));
    let ghost lists = manifests@.map_values(|m: Vec<PackageSpec>| spec_texts(m@));
    let mut all: Vec<PackageSpec> = Vec::new();
    let mut i: usize = 0;
    while i < packages.len()
        invariant
            i <= packages@.len(),
            parsed == texts(packages@).map_values(|p: Seq<char>| parsed_spec(p)),
            spec_texts(all@) == parsed.take(i as int),
        decreases packages@.len() - i,
    {
        let ghost before = all@;
        all.push(parse_spec(packages[i].as_str()));
        assert(spec_texts(all@) == spec_texts(before).push(parsed[i as int]));
        assert(parsed.take(i + 1) == parsed.take(i as int).push(parsed[i as int]));
        i = i + 1;
    }
    assert(parsed.take(i as int) == parsed);
    let mut m: usize = 0;
    assert(parsed + lists.take(0).flatten() == parsed);
    while m < manifests.len()
        invariant
            m <= manifests@.len(),
            lists == manifests@.map_values(|m: Vec<PackageSpec>| spec_texts(m@)),
            spec_texts(all@) == parsed + lists.take(m as int).flatten(),
        decreases manifests@.len() - m,
    {
        let ghost before = all@;
        let mut k: usize = 0;
        while k < manifests[m].len()
            invariant
                m < manifests@.len(),
                k <= manifests@[m as int]@.len(),
                spec_texts(all@) == spec_texts(before) + spec_texts(manifests@[m as int]@).take(
                    k as int,
                ),
            decreases manifests@[m as int]@.len() - k,
        {
            let ghost so_far = all@;
            let ghost list = spec_texts(manifests@[m as int]@);
            all.push(manifests[m][k].clone());
            assert(spec_texts(all@) == spec_texts(so_far).push(list[k as int]));
            assert(list.take(k + 1) == list.take(k as int).push(list[k as int]));
            k = k + 1;
        }
        proof {
            let list = spec_texts(manifests@[m as int]@);
            assert(list.take(k as int) == list);
            assert(lists.take(m + 1) == lists.take(m as int).push(list));
            lists.take(m as int).lemma_flatten_push(list);
            assert(parsed + lists.take(m + 1).flatten() == (parsed + lists.take(
                m as int,
            ).flatten()) + list);
        }
        m = m + 1;
    }
    assert(lists.take(m as int) == lists);
    let ghost wanted = spec_texts(all@);
    if require_nonempty && all.len() == 0 {
        return Err(VendorError::NoSource);
    }
    let mut specs: Vec<PackageSpec> = Vec::new();
    let mut n: usize = 0;
    while n < all.len()
        invariant
            n <= all@.len(),
            wanted == spec_texts(all@),
            spec_texts(specs@) == first_of_each_name(wanted.take(n as int)),
        decreases all@.len() - n,
    {
        let ghost before = specs@;
        proof {
            law_every_name_stays(wanted.take(n as int), all@[n as int]@.name);
            assert(wanted.take(n + 1).drop_last() == wanted.take(n as int));
        }
        if !names_one(&specs, &all[n].name) {
            specs.push(all[n].clone());
            assert(spec_texts(specs@) == spec_texts(before).push(wanted[n as int]));
        }
        n = n + 1;
    }
    assert(wanted.take(n as int) == wanted);
    Ok(specs)
}

/// The first manifest that fails is the one that decides.
pub proof fn law_first_failure_decides(
    outcomes: Seq<Result<Seq<SpecText>, ManifestFailure>>,
    i: int,
)
    requires
        0 <= i < outcomes.len(),
        outcomes[i] is Err,
        forall|j: int| 0 <= j < i ==> #[trigger] outcomes[j] is Ok,
    ensures
        first_failure(outcomes) == Some(outcomes[i]->Err_0),
    decreases i,
{
    if i > 0 {
        let rest = outcomes.skip(1);
        assert(outcomes[0] is Ok);
        assert forall|j: int| 0 <= j < i - 1 implies #[trigger] rest[j] is Ok by {
            assert(outcomes[j + 1] is Ok);
        }
        law_first_failure_decides(rest, i - 1);
    }
}

/// Where no manifest fails, there is no first failure.
pub proof fn law_no_failure(outcomes: Seq<Result<Seq<SpecText>, ManifestFailure>>)
    requires
        forall|j: int| 0 <= j < outcomes.len() ==> #[trigger] outcomes[j] is Ok,
    ensures
        first_failure(outcomes) is None,
    decreases outcomes.len(),
{
    if outcomes.len() > 0 {
        let rest = outcomes.skip(1);
        assert(outcomes[0] is Ok);
        assert forall|j: int| 0 <= j < rest.len() implies #[trigger] rest[j] is Ok by {
            assert(outcomes[j + 1] is Ok);
        }
        law_no_failure(rest);
    }
}

/// The specs to vendor from what manifests gave: the error of the first one that failed;
/// otherwise what [`build_vendor_specs`] gives.
pub fn merge_vendor_specs(
    packages: &[String],
    outcomes: Vec<Result<Vec<PackageSpec>, ManifestError>>,
    require_nonempty: bool,
) -> (specs: Result<Vec<PackageSpec>, VendorError>)
    ensures
        vendors(texts(packages@), outcome_texts(outcomes@), require_nonempty, specs),
{
    let ghost all = outcome_texts(outcomes@);
    let ghost given = outcomes@;
    let mut lists: Vec<Vec<PackageSpec>> = Vec::new();
    for outcome in it: outcomes
        invariant
            it.seq() == given,
            all == outcome_texts(given),
            lists@.len() == it.index(),
            forall|j: int| 0 <= j < it.index() ==> #[trigger] all[j] == Ok::<
                Seq<SpecText>,
                ManifestFailure,
            >(spec_texts(lists@[j]@)),
    {
        assert(all[it.index()] == outcome_text(outcome));
        match outcome {
            Ok(specs) => {
                lists.push(specs);
            },
            Err(error) => {
                proof {
                    law_first_failure_decides(all, it.index());
                }
                return Err(VendorError::Manifest(error));
            },
        }
    }
    proof {
        law_no_failure(all);
        assert(given_specs(all) == lists@.map_values(|m: Vec<PackageSpec>| spec_texts(m@)));
    }
    build_vendor_specs(packages, lists.as_slice(), require_nonempty)
}

/// The specs to vendor: those that `packages` write down, then the dependencies of each manifest,
/// without those whose name came before. A manifest is its text, or the reason why it was not
/// read; the first one that was not read or is no JSON makes this an error. With
/// `require_nonempty` it is an error too if there are no specs.
pub fn vendor_specs(
    packages: &[String],
    manifests: &[Result<String, String>],
    require_nonempty: bool,
) -> (specs: Result<Vec<PackageSpec>, VendorError>)
    ensures
        vendors(texts(packages@), manifest_outcomes(manifests@), require_nonempty, specs),
{
    let ghost all = manifest_outcomes(manifests@);
    let mut outcomes: Vec<Result<Vec<PackageSpec>, ManifestError>> = Vec::new();
    let mut i: usize = 0;
    while i < manifests.len()
        invariant
            i <= manifests@.len(),
            all == manifest_outcomes(manifests@),
            outcome_texts(outcomes@) == all.take(i as int),
        decreases manifests@.len() - i,
    {
        let ghost before = outcomes@;
        outcomes.push(
            match &manifests[i] {
                Ok(text) => specs_from_manifest(text.as_str()),
                Err(reason) => Err(ManifestError::Unread(reason.clone())),
            },
        );
        assert(outcome_texts(outcomes@) == outcome_texts(before).push(all[i as int]));
        assert(all.take(i + 1) == all.take(i as int).push(all[i as int]));
        i = i + 1;
    }
    assert(all.take(i as int) == all);
    merge_vendor_specs(packages, outcomes, require_nonempty)
}

/// Lists that hold nothing, and only those, make up nothing.
proof fn lemma_flatten_empty(lists: Seq<Seq<SpecText>>)
    ensures
        lists.flatten().len() == 0 <==> forall|i: int|
            0 <= i < lists.len() ==> (#[trigger] lists[i]).len() == 0,
    decreases lists.len(),
{
    if lists.len() > 0 {
        let rest = lists.drop_first();
        lemma_flatten_empty(rest);
        assert(lists.flatten() == lists.first() + rest.flatten());
        if lists.flatten().len() == 0 {
            assert forall|i: int| 0 <= i < lists.len() implies (#[trigger] lists[i]).len() == 0 by {
                if i > 0 {
                    assert(rest[i - 1] == lists[i]);
                }
            }
        }
        if forall|i: int| 0 <= i < lists.len() ==> (#[trigger] lists[i]).len() == 0 {
            assert(lists[0].len() == 0);
            assert forall|i: int| 0 <= i < rest.len() implies (#[trigger] rest[i]).len() == 0 by {
                assert(lists[i + 1].len() == 0);
            }
        }
    }
}

/// There is an error exactly if some manifest fails, or if specs are required and neither the
/// given specs nor any manifest hold one.
pub proof fn law_when_there_is_an_error(
    packages: Seq<Seq<char>>,
    outcomes: Seq<Result<Seq<SpecText>, ManifestFailure>>,
    require_nonempty: bool,
    specs: Result<Vec<PackageSpec>, VendorError>,
)
    requires
        vendors(packages, outcomes, require_nonempty, specs),
    ensures
        specs is Err <==> (exists|i: int| 0 <= i < outcomes.len() && #[trigger] outcomes[i] is Err)
            || (require_nonempty && packages.len() == 0 && forall|i: int|
            0 <= i < outcomes.len() ==> (#[trigger] outcomes[i])->Ok_0.len() == 0),
{
    if forall|i: int| 0 <= i < outcomes.len() ==> #[trigger] outcomes[i] is Ok {
        law_no_failure(outcomes);
        let lists = given_specs(outcomes);
        lemma_flatten_empty(lists);
        assert(requested(packages, lists).len() == packages.len() + lists.flatten().len());
        assert forall|i: int| 0 <= i < outcomes.len() implies (#[trigger] outcomes[i])->Ok_0
            == lists[i] by {}
        assert forall|i: int| 0 <= i < lists.len() implies #[trigger] lists[i]
            == outcomes[i]->Ok_0 by {}
    } else {
        lemma_first_failing(outcomes);
    }
}

/// Where some manifest fails, there is a first failure.
proof fn lemma_first_failing(outcomes: Seq<Result<Seq<SpecText>, ManifestFailure>>)
    requires
        exists|i: int| 0 <= i < outcomes.len() && #[trigger] outcomes[i] is Err,
    ensures
        first_failure(outcomes) is Some,
    decreases outcomes.len(),
{
    let i = choose|i: int| 0 <= i < outcomes.len() && #[trigger] outcomes[i] is Err;
    if outcomes[0] is Ok {
        assert(outcomes.skip(1)[i - 1] is Err);
        lemma_first_failing(outcomes.skip(1));
    }
}

/// A name and a range that are joined by `@` are read back as they were, if the range holds no `@`
/// itself; a scope's `@` at the beginning of the name stays with the name.
pub proof fn law_name_and_range_are_read_back(name: Seq<char>, range: Seq<char>)
    requires
        name.len() > 0,
        !range.contains('@'),
    ensures
        parsed_spec(name + seq!['@'] + range) == (SpecText { name, range }),
{
    let text = name + seq!['@'] + range;
    let i = name.len() as int;
    assert forall|j: int| i < j < text.len() implies text[j] != '@' by {
        assert(text[j] == range[j - i - 1]);
    }
    lemma_last_position(text, '@', i);
    assert(text.take(i) == name);
    assert(text.skip(i + 1) == range);
}

/// A name alone, scoped or not, admits any version.
pub proof fn law_bare_name_admits_any_version(name: Seq<char>)
    requires
        forall|j: int| 0 < j < name.len() ==> name[j] != '@',
    ensures
        parsed_spec(name) == (SpecText { name, range: "*"@ }),
{
    if name.len() > 0 && name[0] == '@' {
        lemma_last_position(name, '@', 0);
    } else {
        lemma_last_position(name, '@', -1);
    }
}

/// No name is left twice.
pub proof fn law_names_are_distinct(specs: Seq<SpecText>, i: int, j: int)
    requires
        0 <= i < j < first_of_each_name(specs).len(),
    ensures
        first_of_each_name(specs)[i].name != first_of_each_name(specs)[j].name,
    decreases specs.len(),
{
    if specs.len() > 0 {
        let earlier = specs.drop_last();
        let kept = first_of_each_name(earlier);
        if j < kept.len() {
            law_names_are_distinct(earlier, i, j);
        } else {
            law_every_name_stays(earlier, specs.last().name);
            assert(kept[i].name == first_of_each_name(specs)[i].name);
        }
    }
}

/// What comes later does not change what is kept of what came first.
pub proof fn law_first_specs_win(first: Seq<SpecText>, later: Seq<SpecText>)
    ensures
        first_of_each_name(first).is_prefix_of(first_of_each_name(first + later)),
    decreases later.len(),
{
    if later.len() == 0 {
        assert(first + later == first);
    } else {
        law_first_specs_win(first, later.drop_last());
        assert((first + later).drop_last() == first + later.drop_last());
    }
}

/// Specs that are given as text win over manifest entries of the same name, and come first.
pub proof fn law_given_specs_win_over_manifests(
    packages: Seq<Seq<char>>,
    manifests: Seq<Seq<SpecText>>,
)
    ensures
        first_of_each_name(
            packages.map_values(|p: Seq<char>| parsed_spec(p)),
        ).is_prefix_of(first_of_each_name(requested(packages, manifests))),
{
    law_first_specs_win(
        packages.map_values(|p: Seq<char>| parsed_spec(p)),
        manifests.flatten(),
    );
}

/// Specs with distinct names are all kept, in order.
pub proof fn law_distinct_specs_are_kept(specs: Seq<SpecText>)
    requires
        forall|i: int, j: int|
            0 <= i < j < specs.len() ==> (#[trigger] specs[i]).name != (#[trigger] specs[j]).name,
    ensures
        first_of_each_name(specs) == specs,
    decreases specs.len(),
{
    if specs.len() > 0 {
        let earlier = specs.drop_last();
        assert forall|i: int, j: int| 0 <= i < j < earlier.len() implies (
        #[trigger] earlier[i]).name != (#[trigger] earlier[j]).name by {
            assert(specs[i].name != specs[j].name);
        }
        law_distinct_specs_are_kept(earlier);
        assert(!has_name(earlier, specs.last().name)) by {
            assert forall|i: int| 0 <= i < earlier.len() implies (#[trigger] earlier[i]).name
                != specs.last().name by {
                assert(specs[i].name != specs[specs.len() - 1].name);
            }
        }
        assert(earlier.push(specs.last()) == specs);
    }
}

/// A spec has the name and the range that it was made of, and so has its copy.
pub proof fn law_spec_is_read_as_it_was_made(
    name: &str,
    range: &str,
    spec: PackageSpec,
    copy: PackageSpec,
    read_name: &str,
    read_range: &str,
    copy_name: &str,
    copy_range: &str,
)
    requires
        call_ensures(PackageSpec::npm, (name, range), spec),
        call_ensures(PackageSpec::clone, (&spec,), copy),
        call_ensures(PackageSpec::name, (&spec,), read_name),
        call_ensures(PackageSpec::range, (&spec,), read_range),
        call_ensures(PackageSpec::name, (&copy,), copy_name),
        call_ensures(PackageSpec::range, (&copy,), copy_range),
    ensures
        read_name@ == name@,
        read_range@ == range@,
        copy_name@ == name@,
        copy_range@ == range@,
{
}

/// A text is split at its last `@`, unless it begins with it: what stands before is the name, what
/// stands after is the range.
pub proof fn law_text_is_split_at_the_last_mark(
    text: &str,
    spec: PackageSpec,
    name: &str,
    range: &str,
    i: int,
)
    requires
        call_ensures(parse_spec, (text,), spec),
        call_ensures(PackageSpec::name, (&spec,), name),
        call_ensures(PackageSpec::range, (&spec,), range),
        0 < i < text@.len(),
        text@[i] == '@',
        forall|j: int| i < j < text@.len() ==> #[trigger] text@[j] != '@',
    ensures
        name@ == text@.subrange(0, i),
        range@ == text@.subrange(i + 1, text@.len() as int),
{
    lemma_last_position(text@, '@', i);
    assert(text@.take(i) == text@.subrange(0, i));
    assert(text@.skip(i + 1) == text@.subrange(i + 1, text@.len() as int));
}

/// A text without an `@`, or with none but at its beginning, is a name, and any version is
/// admitted.
pub proof fn law_text_without_a_mark_is_a_name(
    text: &str,
    spec: PackageSpec,
    name: &str,
    range: &str,
)
    requires
        call_ensures(parse_spec, (text,), spec),
        call_ensures(PackageSpec::name, (&spec,), name),
        call_ensures(PackageSpec::range, (&spec,), range),
        forall|j: int| 0 < j < text@.len() ==> #[trigger] text@[j] != '@',
    ensures
        name@ == text@,
        range@ == "*"@,
{
    law_bare_name_admits_any_version(text@);
}

/// Each entry of a manifest gives one spec, with its name and its range, in its place.
pub proof fn law_each_entry_gives_a_spec(
    entries: &[(String, String)],
    specs: Vec<PackageSpec>,
)
    requires
        call_ensures(specs_from_entries, (entries,), specs),
    ensures
        specs@.len() == entries@.len(),
        forall|i: int|
            #![trigger specs@[i]]
            0 <= i < specs@.len() ==> specs@[i]@.name == entries@[i].0@ && specs@[i]@.range
                == entries@[i].1@,
{
    let all = entry_specs(entry_texts(entries@));
    assert(spec_texts(specs@).len() == all.len());
    assert forall|i: int|
        #![trigger specs@[i]]
        0 <= i < specs@.len() implies specs@[i]@.name == entries@[i].0@ && specs@[i]@.range
        == entries@[i].1@ by {
        assert(spec_texts(specs@)[i] == all[i]);
    }
}

/// The text of a manifest gives one spec for each entry that is read from it, with the entry's name
/// and range, in its place; where none can be read, the error says why.
pub proof fn law_manifest_gives_its_entries(
    text: &str,
    specs: Result<Vec<PackageSpec>, ManifestError>,
)
    requires
        call_ensures(specs_from_manifest, (text,), specs),
    ensures
        specs is Ok <==> manifest_entries(text@) is Ok,
        specs matches Ok(specs) ==> manifest_entries(text@) matches Ok(entries) && specs@.len()
            == entries.len() && forall|i: int|
            #![trigger specs@[i]]
            0 <= i < specs@.len() ==> specs@[i]@.name == entries[i].0 && specs@[i]@.range
                == entries[i].1,
        specs matches Err(error) ==> error matches ManifestError::Malformed(reason)
            && manifest_entries(text@) == Err::<Seq<(Seq<char>, Seq<char>)>, Seq<char>>(reason@),
{
    if let Ok(entries) = manifest_entries(text@) {
        let found = specs->Ok_0;
        assert(spec_texts(found@).len() == entry_specs(entries).len());
        assert forall|i: int|
            #![trigger found@[i]]
            0 <= i < found@.len() implies found@[i]@.name == entries[i].0 && found@[i]@.range
            == entries[i].1 by {
            assert(spec_texts(found@)[i] == entry_specs(entries)[i]);
        }
    }
}

/// Where an entry of one of several lists stands when they are put one after the other.
proof fn lemma_place_in_flatten(lists: Seq<Seq<SpecText>>, i: int, j: int)
    requires
        0 <= i < lists.len(),
        0 <= j < lists[i].len(),
    ensures
        0 <= lists.take(i).flatten().len() + j < lists.flatten().len(),
        lists.flatten()[lists.take(i).flatten().len() + j] == lists[i][j],
    decreases i,
{
    let rest = lists.drop_first();
    if i == 0 {
        assert(lists.take(0).flatten().len() == 0);
    } else {
        lemma_place_in_flatten(rest, i - 1, j);
        assert(lists.take(i).drop_first() == rest.take(i - 1));
        assert(lists.take(i).first() == lists.first());
        assert(lists.take(i).flatten().len() == lists.first().len() + rest.take(
            i - 1,
        ).flatten().len());
    }
}

/// What of several lists stands at a place when they are put one after the other.
proof fn lemma_found_in_lists(lists: Seq<Seq<SpecText>>, n: int) -> (place: (int, int))
    requires
        0 <= n < lists.flatten().len(),
    ensures
        0 <= place.0 < lists.len(),
        0 <= place.1 < lists[place.0].len(),
        n == lists.take(place.0).flatten().len() + place.1,
    decreases lists.len(),
{
    let rest = lists.drop_first();
    if n < lists.first().len() {
        assert(lists.take(0).flatten().len() == 0);
        (0, n)
    } else {
        let (i, j) = lemma_found_in_lists(rest, n - lists.first().len());
        assert(lists.take(i + 1).drop_first() == rest.take(i));
        assert(lists.take(i + 1).first() == lists.first());
        assert(lists.take(i + 1).flatten().len() == lists.first().len() + rest.take(
            i,
        ).flatten().len());
        (i + 1, j)
    }
}

/// The lists before a list take up no less room than those before an earlier one and that one.
proof fn lemma_later_lists_stand_later(lists: Seq<Seq<SpecText>>, i: int, k: int)
    requires
        0 <= i < k <= lists.len(),
    ensures
        lists.take(i).flatten().len() + lists[i].len() <= lists.take(k).flatten().len(),
    decreases k - i,
{
    let before = lists.take(k - 1);
    assert(lists.take(k) == before.push(lists[k - 1]));
    before.lemma_flatten_push(lists[k - 1]);
    if i < k - 1 {
        lemma_later_lists_stand_later(lists, i, k - 1);
    }
}

/// Whether one of the places, no later than `n`, has a spec of the name that stands at `n`.
spec fn is_placed(specs: Seq<SpecText>, at: Seq<int>, n: int) -> bool {
    exists|r: int| 0 <= r < at.len() && #[trigger] at[r] <= n && specs[n].name == specs[at[r]].name
}

/// Where the specs that are left stood: in the order in which they stood, each the first one of its
/// name.
proof fn lemma_first_places(specs: Seq<SpecText>) -> (at: Seq<int>)
    ensures
        at.len() == first_of_each_name(specs).len(),
        forall|r: int|
            0 <= r < at.len() ==> 0 <= #[trigger] at[r] < specs.len() && first_of_each_name(
                specs,
            )[r] == specs[at[r]],
        forall|r: int, s: int| 0 <= r < s < at.len() ==> #[trigger] at[r] < #[trigger] at[s],
        forall|n: int| 0 <= n < specs.len() ==> #[trigger] is_placed(specs, at, n),
    decreases specs.len(),
{
    if specs.len() == 0 {
        Seq::empty()
    } else {
        let earlier = specs.drop_last();
        let kept = lemma_first_places(earlier);
        let last = specs.len() - 1;
        let repeated = has_name(earlier, specs.last().name);
        let at = if repeated {
            kept
        } else {
            kept.push(last)
        };
        assert forall|n: int| 0 <= n < specs.len() implies #[trigger] is_placed(specs, at, n) by {
            if n < last || repeated {
                let m = if n < last {
                    n
                } else {
                    choose|m: int|
                        0 <= m < earlier.len() && (#[trigger] earlier[m]).name
                            == specs.last().name
                };
                assert(earlier[m].name == specs[n].name);
                assert(is_placed(earlier, kept, m));
                let r = choose|r: int|
                    0 <= r < kept.len() && #[trigger] kept[r] <= m && earlier[m].name
                        == earlier[kept[r]].name;
                assert(at[r] == kept[r]);
                assert(earlier[kept[r]] == specs[at[r]]);
            } else {
                assert(at[kept.len() as int] == last);
            }
        }
        at
    }
}

/// Whether one of the specs has this name and stood in list `i` no later than at `j`, or in an
/// earlier list.
pub open spec fn is_taken(
    specs: Seq<SpecText>,
    at: Seq<(int, int)>,
    name: Seq<char>,
    i: int,
    j: int,
) -> bool {
    exists|r: int|
        0 <= r < specs.len() && (#[trigger] specs[r]).name == name && (at[r].0 < i || at[r].0 == i
            && at[r].1 <= j)
}

/// Whether `specs` are the first of each name among what `given` and then the `lists`, one after
/// the other, hold. Places are pairs: a list's number, or -1 for `given`, and a place in it. `at`
/// tells where each of the specs stood.
pub open spec fn first_by_name(
    given: Seq<SpecText>,
    lists: Seq<Seq<SpecText>>,
    specs: Seq<SpecText>,
    at: Seq<(int, int)>,
) -> bool {
    &&& at.len() == specs.len()
    // Each was asked for, by its name and range.
    &&& forall|r: int|
        0 <= r < specs.len() ==> {
            ||| (#[trigger] at[r]).0 == -1 && 0 <= at[r].1 < given.len() && specs[r]
                == given[at[r].1]
            ||| 0 <= at[r].0 < lists.len() && 0 <= at[r].1 < lists[at[r].0].len() && specs[r]
                == lists[at[r].0][at[r].1]
        }
    // They come in the order in which they were asked for.
    &&& forall|r: int, s: int|
        0 <= r < s < specs.len() ==> (#[trigger] at[r]).0 < (#[trigger] at[s]).0 || at[r].0
            == at[s].0 && at[r].1 < at[s].1
    // No name comes twice.
    &&& forall|r: int, s: int|
        0 <= r < s < specs.len() ==> (#[trigger] specs[r]).name != (#[trigger] specs[s]).name
    // Every name that is asked for is there, from a place that is no later.
    &&& forall|k: int|
        0 <= k < given.len() ==> #[trigger] is_taken(specs, at, given[k].name, -1, k)
    &&& forall|i: int, j: int|
        0 <= i < lists.len() && 0 <= j < lists[i].len() ==> #[trigger] is_taken(
            specs,
            at,
            lists[i][j].name,
            i,
            j,
        )
}

/// What is left of given specs and lists is the first of each name.
proof fn lemma_first_by_name(given: Seq<SpecText>, lists: Seq<Seq<SpecText>>) -> (at: Seq<
    (int, int),
>)
    ensures
        first_by_name(given, lists, first_of_each_name(given + lists.flatten()), at),
{
    let all = given + lists.flatten();
    let specs = first_of_each_name(all);
    let places = lemma_first_places(all);
    let stood = |n: int, p: (int, int)|
        if n < given.len() {
            p == (-1int, n)
        } else {
            0 <= p.0 < lists.len() && 0 <= p.1 < lists[p.0].len() && n - given.len()
                == lists.take(p.0).flatten().len() + p.1
        };
    let place = |n: int| choose|p: (int, int)| #[trigger] stood(n, p);
    assert forall|n: int| 0 <= n < all.len() implies stood(n, #[trigger] place(n)) by {
        if n < given.len() {
            assert(stood(n, (-1int, n)));
        } else {
            let p = lemma_found_in_lists(lists, n - given.len());
            assert(stood(n, p));
        }
    }
    let at = Seq::new(specs.len(), |r: int| place(places[r]));
    assert forall|r: int| 0 <= r < specs.len() implies {
        ||| (#[trigger] at[r]).0 == -1 && 0 <= at[r].1 < given.len() && specs[r] == given[at[r].1]
        ||| 0 <= at[r].0 < lists.len() && 0 <= at[r].1 < lists[at[r].0].len() && specs[r]
            == lists[at[r].0][at[r].1]
    } by {
        let n = places[r];
        assert(stood(n, place(n)));
        if n >= given.len() {
            lemma_place_in_flatten(lists, at[r].0, at[r].1);
        }
    }
    assert forall|r: int, s: int| 0 <= r < s < specs.len() implies (#[trigger] at[r]).0 < (
    #[trigger] at[s]).0 || at[r].0 == at[s].0 && at[r].1 < at[s].1 by {
        assert(places[r] < places[s]);
        assert(stood(places[r], place(places[r])));
        assert(stood(places[s], place(places[s])));
        if places[r] >= given.len() && at[s].0 < at[r].0 {
            lemma_later_lists_stand_later(lists, at[s].0, at[r].0);
        }
    }
    assert forall|r: int, s: int| 0 <= r < s < specs.len() implies (#[trigger] specs[r]).name != (
    #[trigger] specs[s]).name by {
        law_names_are_distinct(all, r, s);
    }
    assert forall|k: int| 0 <= k < given.len() implies #[trigger] is_taken(
        specs,
        at,
        given[k].name,
        -1,
        k,
    ) by {
        assert(all[k] == given[k]);
        assert(is_placed(all, places, k));
        let r = choose|r: int|
            0 <= r < places.len() && #[trigger] places[r] <= k && all[k].name
                == all[places[r]].name;
        assert(stood(places[r], place(places[r])));
        assert(at[r] == (-1int, places[r]));
        assert(specs[r].name == given[k].name);
    }
    assert forall|i: int, j: int|
        0 <= i < lists.len() && 0 <= j < lists[i].len() implies #[trigger] is_taken(
        specs,
        at,
        lists[i][j].name,
        i,
        j,
    ) by {
        lemma_place_in_flatten(lists, i, j);
        let n = given.len() + lists.take(i).flatten().len() + j;
        assert(all[n] == lists[i][j]);
        assert(is_placed(all, places, n));
        let r = choose|r: int|
            0 <= r < places.len() && #[trigger] places[r] <= n && all[n].name
                == all[places[r]].name;
        assert(stood(places[r], place(places[r])));
        if places[r] >= given.len() && i < at[r].0 {
            lemma_later_lists_stand_later(lists, i, at[r].0);
        }
        assert(specs[r].name == lists[i][j].name);
    }
    at
}

/// Whether [`parse_spec`] reads a text as this spec.
pub open spec fn is_read_as(text: Seq<char>, spec: PackageSpec) -> bool {
    exists|p: &str| p@ == text && #[trigger] call_ensures(parse_spec, (p,), spec)
}

/// The specs that texts write down are those that are read from each of them.
proof fn lemma_parsed_texts(packages: Seq<String>, parsed: Seq<PackageSpec>)
    requires
        parsed.len() == packages.len(),
        forall|k: int|
            0 <= k < packages.len() ==> #[trigger] is_read_as(packages[k]@, parsed[k]),
    ensures
        texts(packages).map_values(|p: Seq<char>| parsed_spec(p)) == spec_texts(parsed),
{
    assert forall|k: int| 0 <= k < packages.len() implies parsed_spec(texts(packages)[k])
        == #[trigger] spec_texts(parsed)[k] by {
        assert(texts(packages)[k] == packages[k]@);
        assert(is_read_as(packages[k]@, parsed[k]));
    }
    assert(texts(packages).map_values(|p: Seq<char>| parsed_spec(p)) =~= spec_texts(parsed));
}

/// Every package that is asked for is vendored, and nothing else: the specs are those that the
/// given texts are read as, then the entries of the manifests, one manifest after the other, each
/// unless its name came before. There are none exactly if there have to be some and no text and no
/// entry is given.
pub proof fn law_every_package_is_vendored(
    packages: &[String],
    parsed: Seq<PackageSpec>,
    manifests: &[Vec<PackageSpec>],
    require_nonempty: bool,
    specs: Result<Vec<PackageSpec>, VendorError>,
) -> (at: Seq<(int, int)>)
    requires
        call_ensures(build_vendor_specs, (packages, manifests, require_nonempty), specs),
        parsed.len() == packages@.len(),
        forall|k: int|
            0 <= k < packages@.len() ==> #[trigger] is_read_as(packages@[k]@, parsed[k]),
    ensures
        specs matches Ok(specs) ==> first_by_name(
            Seq::new(parsed.len(), |k: int| parsed[k]@),
            Seq::new(
                manifests@.len(),
                |i: int| Seq::new(manifests@[i]@.len(), |j: int| manifests@[i]@[j]@),
            ),
            Seq::new(specs@.len(), |r: int| specs@[r]@),
            at,
        ),
        specs matches Err(error) ==> error is NoSource,
        specs is Err <==> require_nonempty && packages@.len() == 0 && forall|i: int|
            0 <= i < manifests@.len() ==> (#[trigger] manifests@[i])@.len() == 0,
{
    let lists = manifests@.map_values(|m: Vec<PackageSpec>| spec_texts(m@));
    lemma_parsed_texts(packages@, parsed);
    lemma_flatten_empty(lists);
    let all = requested(texts(packages@), lists);
    assert(all == spec_texts(parsed) + lists.flatten());
    assert(all.len() == packages@.len() + lists.flatten().len());
    assert forall|i: int| 0 <= i < manifests@.len() implies (#[trigger] manifests@[i])@.len()
        == lists[i].len() by {}
    assert forall|i: int| 0 <= i < lists.len() implies (#[trigger] lists[i]).len()
        == manifests@[i]@.len() by {}
    let at = lemma_first_by_name(spec_texts(parsed), lists);
    if let Ok(found) = specs {
        assert(Seq::new(parsed.len(), |k: int| parsed[k]@) =~= spec_texts(parsed));
        assert(Seq::new(found@.len(), |r: int| found@[r]@) =~= spec_texts(found@));
        let named = Seq::new(
            manifests@.len(),
            |i: int| Seq::new(manifests@[i]@.len(), |j: int| manifests@[i]@[j]@),
        );
        assert forall|i: int| 0 <= i < lists.len() implies named[i] == #[trigger] lists[i] by {
            assert(named[i] =~= lists[i]);
        }
        assert(named =~= lists);
    }
    at
}

/// The first manifest that failed makes the whole an error, whatever else is given. Otherwise the
/// specs are merged as if none could fail.
pub proof fn law_outcomes_are_merged(
    packages: &[String],
    parsed: Seq<PackageSpec>,
    outcomes: Vec<Result<Vec<PackageSpec>, ManifestError>>,
    require_nonempty: bool,
    specs: Result<Vec<PackageSpec>, VendorError>,
) -> (at: Seq<(int, int)>)
    requires
        call_ensures(merge_vendor_specs, (packages, outcomes, require_nonempty), specs),
        parsed.len() == packages@.len(),
        forall|k: int|
            0 <= k < packages@.len() ==> #[trigger] is_read_as(packages@[k]@, parsed[k]),
    ensures
        forall|i: int|
            0 <= i < outcomes@.len() && (#[trigger] outcomes@[i]) is Err && (forall|j: int|
                0 <= j < i ==> (#[trigger] outcomes@[j]) is Ok) ==> (specs matches Err(
                VendorError::Manifest(error),
            ) && error@ == (outcomes@[i]->Err_0)@),
        (forall|j: int| 0 <= j < outcomes@.len() ==> (#[trigger] outcomes@[j]) is Ok) ==> {
            &&& specs matches Ok(specs) ==> first_by_name(
                Seq::new(parsed.len(), |k: int| parsed[k]@),
                Seq::new(
                    outcomes@.len(),
                    |i: int|
                        Seq::new(
                            (outcomes@[i]->Ok_0)@.len(),
                            |j: int| (outcomes@[i]->Ok_0)@[j]@,
                        ),
                ),
                Seq::new(specs@.len(), |r: int| specs@[r]@),
                at,
            )
            &&& specs matches Err(error) ==> error is NoSource
            &&& specs is Err <==> require_nonempty && packages@.len() == 0 && forall|i: int|
                0 <= i < outcomes@.len() ==> ((#[trigger] outcomes@[i])->Ok_0)@.len() == 0
        },
{
    let all = outcome_texts(outcomes@);
    let lists = given_specs(all);
    assert forall|i: int|
        0 <= i < outcomes@.len() && (#[trigger] outcomes@[i]) is Err && (forall|j: int|
            0 <= j < i ==> (#[trigger] outcomes@[j]) is Ok) implies (specs matches Err(
        VendorError::Manifest(error),
    ) && error@ == (outcomes@[i]->Err_0)@) by {
        assert forall|j: int| 0 <= j < i implies #[trigger] all[j] is Ok by {
            assert(outcomes@[j] is Ok);
        }
        law_first_failure_decides(all, i);
    }
    let at = lemma_first_by_name(spec_texts(parsed), lists);
    if forall|j: int| 0 <= j < outcomes@.len() ==> (#[trigger] outcomes@[j]) is Ok {
        assert forall|j: int| 0 <= j < all.len() implies #[trigger] all[j] is Ok by {
            assert(outcomes@[j] is Ok);
        }
        law_no_failure(all);
        lemma_parsed_texts(packages@, parsed);
        lemma_flatten_empty(lists);
        assert(requested(texts(packages@), lists) == spec_texts(parsed) + lists.flatten());
        assert forall|i: int| 0 <= i < outcomes@.len() implies ((#[trigger] outcomes@[i])->Ok_0)@.len()
            == lists[i].len() by {}
        assert forall|i: int| 0 <= i < lists.len() implies (#[trigger] lists[i]) == spec_texts(
            (outcomes@[i]->Ok_0)@,
        ) by {}
        if let Ok(found) = specs {
            assert(Seq::new(parsed.len(), |k: int| parsed[k]@) =~= spec_texts(parsed));
            assert(Seq::new(found@.len(), |r: int| found@[r]@) =~= spec_texts(found@));
            let named = Seq::new(
                outcomes@.len(),
                |i: int|
                    Seq::new((outcomes@[i]->Ok_0)@.len(), |j: int| (outcomes@[i]->Ok_0)@[j]@),
            );
            assert forall|i: int| 0 <= i < lists.len() implies named[i] == #[trigger] lists[i] by {
                assert(named[i] =~= lists[i]);
            }
            assert(named =~= lists);
        }
    }
    at
}

/// Whether a manifest was read and these entries can be read from its text.
pub open spec fn manifest_gives(
    manifest: Result<String, String>,
    entries: Seq<(Seq<char>, Seq<char>)>,
) -> bool {
    manifest matches Ok(text) && manifest_entries(text@) == Ok::<
        Seq<(Seq<char>, Seq<char>)>,
        Seq<char>,
    >(entries)
}

/// From the texts of specs and manifests to the specs that are vendored. The first manifest that
/// was not read, or that no entries can be read from, makes the whole an error with its reason.
/// Otherwise every package is vendored that a text or an entry asks for, the first of each name.
pub proof fn law_texts_decide_what_is_vendored(
    packages: &[String],
    parsed: Seq<PackageSpec>,
    manifests: &[Result<String, String>],
    entries: Seq<Seq<(Seq<char>, Seq<char>)>>,
    require_nonempty: bool,
    specs: Result<Vec<PackageSpec>, VendorError>,
) -> (at: Seq<(int, int)>)
    requires
        call_ensures(vendor_specs, (packages, manifests, require_nonempty), specs),
        parsed.len() == packages@.len(),
        forall|k: int|
            0 <= k < packages@.len() ==> #[trigger] is_read_as(packages@[k]@, parsed[k]),
        entries.len() <= manifests@.len(),
    ensures
        (forall|i: int|
            0 <= i < entries.len() ==> manifest_gives(#[trigger] manifests@[i], entries[i]))
            && entries.len() < manifests@.len() ==> match manifests@[entries.len() as int] {
            Ok(text) => manifest_entries(text@) matches Err(message) ==> (specs matches Err(
                VendorError::Manifest(ManifestError::Malformed(reason)),
            ) && reason@ == message),
            Err(message) => specs matches Err(
                VendorError::Manifest(ManifestError::Unread(reason)),
            ) && reason@ == message@,
        },
        (forall|i: int|
            0 <= i < entries.len() ==> manifest_gives(#[trigger] manifests@[i], entries[i]))
            && entries.len() == manifests@.len() ==> {
            &&& specs matches Ok(specs) ==> first_by_name(
                Seq::new(parsed.len(), |k: int| parsed[k]@),
                Seq::new(
                    entries.len(),
                    |i: int|
                        Seq::new(
                            entries[i].len(),
                            |j: int| SpecText { name: entries[i][j].0, range: entries[i][j].1 },
                        ),
                ),
                Seq::new(specs@.len(), |r: int| specs@[r]@),
                at,
            )
            &&& specs matches Err(error) ==> error is NoSource
            &&& specs is Err <==> require_nonempty && packages@.len() == 0 && forall|i: int|
                0 <= i < entries.len() ==> (#[trigger] entries[i]).len() == 0
        },
{
    let all = manifest_outcomes(manifests@);
    let lists = given_specs(all);
    let read = forall|i: int|
        0 <= i < entries.len() ==> manifest_gives(#[trigger] manifests@[i], entries[i]);
    assert forall|j: int| read && 0 <= j < entries.len() implies #[trigger] all[j] == Ok::<
        Seq<SpecText>,
        ManifestFailure,
    >(entry_specs(entries[j])) by {
        assert(manifest_gives(manifests@[j], entries[j]));
    }
    let at = lemma_first_by_name(spec_texts(parsed), lists);
    if !read {
    } else if entries.len() < manifests@.len() {
        let i = entries.len() as int;
        assert(all[i] == manifest_outcome(manifests@[i]));
        if all[i] is Err {
            law_first_failure_decides(all, i);
        }
    } else {
        law_no_failure(all);
        lemma_parsed_texts(packages@, parsed);
        lemma_flatten_empty(lists);
        assert(requested(texts(packages@), lists) == spec_texts(parsed) + lists.flatten());
        assert forall|i: int| 0 <= i < entries.len() implies (#[trigger] entries[i]).len()
            == lists[i].len() by {
            assert(all[i] is Ok);
        }
        assert forall|i: int| 0 <= i < lists.len() implies (#[trigger] lists[i]) == entry_specs(
            entries[i],
        ) by {
            assert(all[i] is Ok);
        }
        if let Ok(found) = specs {
            assert(Seq::new(parsed.len(), |k: int| parsed[k]@) =~= spec_texts(parsed));
            assert(Seq::new(found@.len(), |r: int| found@[r]@) =~= spec_texts(found@));
            let named = Seq::new(
                entries.len(),
                |i: int|
                    Seq::new(
                        entries[i].len(),
                        |j: int| SpecText { name: entries[i][j].0, range: entries[i][j].1 },
                    ),
            );
            assert forall|i: int| 0 <= i < lists.len() implies named[i] == #[trigger] lists[i] by {
                assert(named[i] =~= lists[i]);
            }
            assert(named =~= lists);
        }
    }
    at
}

/// What is said of a manifest that gives no specs is the reason, as it is.
pub proof fn law_reason_is_told(error: ManifestError, told: &str, whole: VendorError, text: String)
    requires
        call_ensures(ManifestError::message, (&error,), told),
        call_ensures(VendorError::message, (&whole,), text),
        whole == VendorError::Manifest(error),
    ensures
        error matches ManifestError::Unread(reason) ==> told@ == reason@ && text@ == reason@,
        error matches ManifestError::Malformed(reason) ==> told@ == reason@ && text@ == reason@,
{
}

} // verus!
