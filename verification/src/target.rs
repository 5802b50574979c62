//! Targets: classification, enumeration records, exclusion filtering,
//! uniform selection, and the completion ledger records.

use vstd::prelude::*;

use crate::error::PsiError;
use crate::rvuid::spec_rvuid_eq;
use crate::rvuid::Rvuid;
use vstd::string::StrSliceExecFns;

verus! {

/// ASCII letters lowered; every other character unchanged.
pub open spec fn spec_lower_char(c: char) -> char {
    match c {
        'A' => 'a',
        'B' => 'b',
        'C' => 'c',
        'D' => 'd',
        'E' => 'e',
        'F' => 'f',
        'G' => 'g',
        'H' => 'h',
        'I' => 'i',
        'J' => 'j',
        'K' => 'k',
        'L' => 'l',
        'M' => 'm',
        'N' => 'n',
        'O' => 'o',
        'P' => 'p',
        'Q' => 'q',
        'R' => 'r',
        'S' => 's',
        'T' => 't',
        'U' => 'u',
        'V' => 'v',
        'W' => 'w',
        'X' => 'x',
        'Y' => 'y',
        'Z' => 'z',
        _ => c,
    }
}

fn lower_char(c: char) -> (r: char)
    ensures
        r == spec_lower_char(c),
{
    match c {
        'A' => 'a',
        'B' => 'b',
        'C' => 'c',
        'D' => 'd',
        'E' => 'e',
        'F' => 'f',
        'G' => 'g',
        'H' => 'h',
        'I' => 'i',
        'J' => 'j',
        'K' => 'k',
        'L' => 'l',
        'M' => 'm',
        'N' => 'n',
        'O' => 'o',
        'P' => 'p',
        'Q' => 'q',
        'R' => 'r',
        'S' => 's',
        'T' => 't',
        'U' => 'u',
        'V' => 'v',
        'W' => 'w',
        'X' => 'x',
        'Y' => 'y',
        'Z' => 'z',
        _ => c,
    }
}

/// The final path component: everything after the last `/`.
pub open spec fn spec_file_name(s: Seq<char>) -> Seq<char>
    decreases s.len(),
{
    if s.len() == 0 {
        s
    } else if s.last() == '/' {
        Seq::empty()
    } else {
        spec_file_name(s.drop_last()).push(s.last())
    }
}

/// The extension of a file name: the text after its last dot, provided
/// that dot is not the leading character (a leading dot marks a hidden
/// file, not an extension).
pub open spec fn spec_extension(name: Seq<char>) -> Option<Seq<char>>
    decreases name.len(),
{
    if name.len() <= 1 {
        None
    } else if name.last() == '.' {
        Some(Seq::empty())
    } else {
        match spec_extension(name.drop_last()) {
            Option::Some(e) => Some(e.push(name.last())),
            Option::None => None,
        }
    }
}

proof fn lemma_file_name_suffix(s: Seq<char>, k: int)
    requires
        0 <= k <= s.len(),
        forall|j: int| k <= j < s.len() ==> s[j] != '/',
        k == 0 || s[k - 1] == '/',
    ensures
        spec_file_name(s) =~= s.skip(k),
    decreases s.len() - k,
{
    if k == s.len() {
        if s.len() > 0 {
            assert(s.last() == '/');
        }
    } else {
        assert(s.last() != '/');
        lemma_file_name_suffix(s.drop_last(), k);
        assert(s.drop_last().skip(k).push(s.last()) =~= s.skip(k));
    }
}

proof fn lemma_extension_split(name: Seq<char>, p: int)
    requires
        0 < p < name.len(),
        name[p] == '.',
        forall|j: int| p < j < name.len() ==> name[j] != '.',
    ensures
        spec_extension(name) is Some,
        spec_extension(name)->Some_0 =~= name.skip(p + 1),
    decreases name.len() - p,
{
    if p == name.len() - 1 {
        assert(name.last() == '.');
        assert(name.skip(p + 1) =~= Seq::<char>::empty());
    } else {
        assert(name.last() != '.');
        lemma_extension_split(name.drop_last(), p);
        assert(name.drop_last().skip(p + 1).push(name.last()) =~= name.skip(p + 1));
    }
}

proof fn lemma_extension_none(name: Seq<char>)
    requires
        forall|j: int| 0 < j < name.len() ==> name[j] != '.',
    ensures
        spec_extension(name) is None,
    decreases name.len(),
{
    if name.len() > 1 {
        assert(name.last() != '.');
        lemma_extension_none(name.drop_last());
    }
}

/// The kind of file a directory entry is, by extension.
#[derive(Clone, Copy, Debug, PartialEq, Eq, Structural)]
pub enum TargetType {
    Text,
    Jpeg,
    Svg,
}

/// What a path classifies as: a target kind, or nothing for sidecar
/// files (`yaml`/`yml`), unrecognized extensions, and entries without an
/// extension. Extensions compare case-insensitively.
pub open spec fn spec_classify(path: Seq<char>) -> Option<TargetType> {
    match spec_extension(spec_file_name(path)) {
        Option::None => None,
        Option::Some(e) => {
            let l = e.map_values(|c: char| spec_lower_char(c));
            if l == seq!['j', 'p', 'g'] || l == seq!['j', 'p', 'e', 'g'] {
                Some(TargetType::Jpeg)
            } else if l == seq!['s', 'v', 'g'] {
                Some(TargetType::Svg)
            } else if l == seq!['t', 'a', 'r', 'g', 'e', 't'] {
                Some(TargetType::Text)
            } else {
                None
            }
        },
    }
}

impl TargetType {
    /// Classify a path by the extension of its final component:
    /// `jpg`/`jpeg`, `svg` and `target` files are targets; `yaml`/`yml`
    /// sidecars and everything else (including entries without an
    /// extension) are not.
    pub fn parse(path: &str) -> (r: Option<TargetType>)
        ensures
            r == spec_classify(path@),
    {
        let cs = crate::text::chars_vec(path);
        let n: usize = cs.len();
        // Start of the final path component.
        let mut k: usize = n;
        while k > 0 && cs[k - 1] != '/'
            invariant
                0 <= k <= n,
                n == cs@.len(),
                cs@ == path@,
                forall|j: int| k <= j < n ==> cs@[j] != '/',
            decreases k,
        {
            k = k - 1;
        }
        proof {
            lemma_file_name_suffix(path@, k as int);
        }
        let ghost name = path@.skip(k as int);
        // Last dot inside the final component.
        let mut q: usize = n;
        while q > k && cs[q - 1] != '.'
            invariant
                k <= q <= n,
                n == cs@.len(),
                cs@ == path@,
                forall|j: int| q <= j < n ==> cs@[j] != '.',
            decreases q,
        {
            q = q - 1;
        }
        if q == k || q == k + 1 {
            // No dot in the name, or only a leading one: no extension.
            proof {
                assert(forall|j: int| 0 < j < name.len() ==> name[j] != '.');
                lemma_extension_none(name);
            }
            return None;
        }
        let p: usize = q - 1;
        proof {
            assert(name[p - k as int] == '.');
            assert(forall|j: int| p - k < j < name.len() ==> name[j] != '.');
            lemma_extension_split(name, p - k as int);
            assert(name.skip(p - k as int + 1) =~= path@.skip(p as int + 1));
        }
        // Lower-case the extension characters.
        let mut ext: Vec<char> = Vec::new();
        let mut i: usize = p + 1;
        while i < n
            invariant
                p < i <= n,
                p + 1 <= i,
                n == cs@.len(),
                cs@ == path@,
                ext@ =~= path@.skip(p as int + 1).take(i - p - 1 as int).map_values(
                    |c: char| spec_lower_char(c),
                ),
            decreases n - i,
        {
            ext.push(lower_char(cs[i]));
            i = i + 1;
            assert(ext@ =~= path@.skip(p as int + 1).take(i - p - 1 as int).map_values(
                |c: char| spec_lower_char(c),
            ));
        }
        proof {
            assert(path@.skip(p as int + 1).take(n - p - 1 as int) =~= path@.skip(p as int + 1));
        }
        let m: usize = ext.len();
        let r = if m == 3 && ext[0] == 'j' && ext[1] == 'p' && ext[2] == 'g' {
            proof {
                assert(ext@ =~= seq!['j', 'p', 'g']);
            }
            Some(TargetType::Jpeg)
        } else if m == 4 && ext[0] == 'j' && ext[1] == 'p' && ext[2] == 'e' && ext[3] == 'g' {
            proof {
                assert(ext@ =~= seq!['j', 'p', 'e', 'g']);
            }
            Some(TargetType::Jpeg)
        } else if m == 3 && ext[0] == 's' && ext[1] == 'v' && ext[2] == 'g' {
            proof {
                assert(ext@ =~= seq!['s', 'v', 'g']);
            }
            Some(TargetType::Svg)
        } else if m == 6 && ext[0] == 't' && ext[1] == 'a' && ext[2] == 'r' && ext[3] == 'g'
            && ext[4] == 'e' && ext[5] == 't' {
            proof {
                assert(ext@ =~= seq!['t', 'a', 'r', 'g', 'e', 't']);
            }
            Some(TargetType::Text)
        } else {
            proof {
                let l = ext@;
                if l == seq!['j', 'p', 'g'] {
                    assert(l.len() == 3 && l[0] == 'j' && l[1] == 'p' && l[2] == 'g');
                }
                if l == seq!['j', 'p', 'e', 'g'] {
                    assert(l.len() == 4 && l[0] == 'j' && l[1] == 'p' && l[2] == 'e' && l[3]
                        == 'g');
                }
                if l == seq!['s', 'v', 'g'] {
                    assert(l.len() == 3 && l[0] == 's' && l[1] == 'v' && l[2] == 'g');
                }
                if l == seq!['t', 'a', 'r', 'g', 'e', 't'] {
                    assert(l.len() == 6 && l[0] == 't' && l[1] == 'a' && l[2] == 'r' && l[3] == 'g'
                        && l[4] == 'e' && l[5] == 't');
                }
            }
            None
        };
        r
    }
}

/// The structured fields of a target's sidecar metadata file, already
/// parsed into plain values by the caller.
#[derive(Debug)]
pub struct YamlData {
    pub query: String,
    pub frontloading: Vec<String>,
    pub image_description: String,
    pub datetime_original: String,
    pub img_metadata: Vec<(String, String)>,
    pub license: String,
    pub license_meta: Vec<(String, String)>,
}

impl YamlData {
    /// The displayable metadata of a target: the four fixed presentation
    /// keys and their values.
    pub fn serialize(&self) -> (r: Vec<(String, String)>)
        ensures
            r@.len() == 4,
            r@[0].0@ == "Query"@ && r@[0].1@ == self.query@,
            r@[1].0@ == "Description"@ && r@[1].1@ == self.image_description@,
            r@[2].0@ == "Datetime"@ && r@[2].1@ == self.datetime_original@,
            r@[3].0@ == "License"@ && r@[3].1@ == self.license@,
    {
        let mut r: Vec<(String, String)> = Vec::new();
        r.push(("Query".to_owned(), self.query.clone()));
        r.push(("Description".to_owned(), self.image_description.clone()));
        r.push(("Datetime".to_owned(), self.datetime_original.clone()));
        r.push(("License".to_owned(), self.license.clone()));
        r
    }
}

/// One enumerated stimulus file, rebuilt by scanning on every run and
/// never persisted directly.
#[derive(Debug)]
pub struct Target {
    pub rvuid: Rvuid,
    pub path: String,
    pub meta_path: Option<String>,
    pub frontloading: Vec<String>,
    pub target_type: TargetType,
    pub meta: Vec<(String, String)>,
}

/// A copy of a metadata list, equal text for text.
fn clone_pairs(v: &Vec<(String, String)>) -> (r: Vec<(String, String)>)
    ensures
        r@.len() == v@.len(),
        forall|i: int|
            0 <= i < v@.len() ==> (#[trigger] r@[i]).0@ == v@[i].0@ && r@[i].1@ == v@[i].1@,
{
    let n: usize = v.len();
    let mut r: Vec<(String, String)> = Vec::new();
    let mut i: usize = 0;
    while i < n
        invariant
            i <= n,
            n == v@.len(),
            r@.len() == i,
            forall|j: int|
                0 <= j < i ==> (#[trigger] r@[j]).0@ == v@[j].0@ && r@[j].1@ == v@[j].1@,
        decreases n - i,
    {
        r.push((v[i].0.clone(), v[i].1.clone()));
        i = i + 1;
    }
    r
}

fn clone_string_list(v: &Vec<String>) -> (r: Vec<String>)
    ensures
        r@.len() == v@.len(),
        forall|i: int| 0 <= i < v@.len() ==> (#[trigger] r@[i])@ == v@[i]@,
{
    let n: usize = v.len();
    let mut r: Vec<String> = Vec::new();
    let mut i: usize = 0;
    while i < n
        invariant
            i <= n,
            n == v@.len(),
            r@.len() == i,
            forall|j: int| 0 <= j < i ==> (#[trigger] r@[j])@ == v@[j]@,
        decreases n - i,
    {
        r.push(v[i].clone());
        i = i + 1;
    }
    r
}

impl Clone for Target {
    fn clone(&self) -> (r: Self)
        ensures
            r.rvuid@ == self.rvuid@,
            r.rvuid.spec_prefix() == self.rvuid.spec_prefix(),
            r.rvuid.spec_display() == self.rvuid.spec_display(),
            r.path@ == self.path@,
            r.target_type == self.target_type,
            r.meta_path is Some <==> self.meta_path is Some,
            r.meta_path is Some ==> r.meta_path->Some_0@ == self.meta_path->Some_0@,
            r.frontloading@.len() == self.frontloading@.len(),
            forall|i: int|
                0 <= i < self.frontloading@.len() ==> (#[trigger] r.frontloading@[i])@
                    == self.frontloading@[i]@,
            r.meta@.len() == self.meta@.len(),
            forall|i: int|
                0 <= i < self.meta@.len() ==> (#[trigger] r.meta@[i]).0@ == self.meta@[i].0@
                    && r.meta@[i].1@ == self.meta@[i].1@,
    {
        let meta_path: Option<String> = match &self.meta_path {
            Option::Some(p) => Some(p.clone()),
            Option::None => None,
        };
        Target {
            rvuid: self.rvuid.clone(),
            path: self.path.clone(),
            meta_path,
            frontloading: clone_string_list(&self.frontloading),
            target_type: self.target_type,
            meta: clone_pairs(&self.meta),
        }
    }
}

/// The value under the first occurrence of a key in a metadata list.
pub open spec fn spec_lookup(m: Seq<(String, String)>, k: Seq<char>) -> Option<Seq<char>>
    decreases m.len(),
{
    if m.len() == 0 {
        None
    } else if m[0].0@ == k {
        Some(m[0].1@)
    } else {
        spec_lookup(m.drop_first(), k)
    }
}

/// The value under a key, or empty text when the key is absent.
pub open spec fn spec_meta_value(m: Seq<(String, String)>, k: Seq<char>) -> Seq<char> {
    match spec_lookup(m, k) {
        Option::Some(v) => v,
        Option::None => Seq::empty(),
    }
}

fn meta_lookup<'a>(m: &'a Vec<(String, String)>, key: &String) -> (r: Option<&'a String>)
    ensures
        r is Some <==> spec_lookup(m@, key@) is Some,
        r is Some ==> r->Some_0@ == spec_lookup(m@, key@)->Some_0,
{
    let n: usize = m.len();
    proof {
        assert(m@.skip(0) =~= m@);
    }
    let mut i: usize = 0;
    while i < n
        invariant
            i <= n,
            n == m@.len(),
            spec_lookup(m@, key@) == spec_lookup(m@.skip(i as int), key@),
        decreases n - i,
    {
        proof {
            assert(m@.skip(i as int)[0] == m@[i as int]);
            assert(m@.skip(i as int).drop_first() =~= m@.skip(i as int + 1));
        }
        if m[i].0 == *key {
            return Some(&m[i].1);
        }
        i = i + 1;
    }
    None
}

impl Target {
    /// Build the record for one classified entry: the path, its
    /// identifier, the sidecar path if one stood beside it, and the
    /// parsed sidecar fields if they were given. Entries whose path does
    /// not classify as a target are refused.
    pub fn assemble(
        path: String,
        rvuid: Rvuid,
        meta_path: Option<String>,
        yaml: Option<YamlData>,
    ) -> (r: Result<Target, PsiError>)
        ensures
            spec_classify(path@) is None <==> (r is Err && r->Err_0 == PsiError::NotFoundError),
            spec_classify(path@) is Some ==> r is Ok,
            r is Ok ==> {
                let t = r->Ok_0;
                &&& t.rvuid == rvuid
                &&& t.path@ == path@
                &&& Some(t.target_type) == spec_classify(path@)
                &&& (yaml is Some ==> t.frontloading == yaml->Some_0.frontloading && t.meta@.len()
                    == 4)
                &&& (yaml is Some ==> {
                    let y = yaml->Some_0;
                    &&& t.meta@[0].0@ == "Query"@ && t.meta@[0].1@ == y.query@
                    &&& t.meta@[1].0@ == "Description"@ && t.meta@[1].1@ == y.image_description@
                    &&& t.meta@[2].0@ == "Datetime"@ && t.meta@[2].1@ == y.datetime_original@
                    &&& t.meta@[3].0@ == "License"@ && t.meta@[3].1@ == y.license@
                })
                &&& (yaml is None ==> t.frontloading@.len() == 0 && t.meta@.len() == 0)
                &&& (meta_path is Some ==> t.meta_path is Some && t.meta_path->Some_0@ == meta_path->Some_0@)
                &&& (meta_path is None ==> t.meta_path is None)
            },
    {
        let target_type = match TargetType::parse(path.as_str()) {
            Option::Some(t) => t,
            Option::None => {
                return Err(PsiError::NotFoundError);
            },
        };
        match yaml {
            Option::Some(y) => {
                let meta = y.serialize();
                Ok(Target {
                    rvuid,
                    path,
                    meta_path,
                    frontloading: y.frontloading,
                    target_type,
                    meta,
                })
            },
            Option::None => {
                let frontloading: Vec<String> = Vec::new();
                let blank: Vec<(String, String)> = Vec::new();
                Ok(Target { rvuid, path, meta_path, frontloading, target_type, meta: blank })
            },
        }
    }

    /// The four presentation metadata pairs, each defaulting to empty
    /// text when its key is absent.
    pub fn iter_meta(&self) -> (r: Vec<(String, String)>)
        ensures
            r@.len() == 4,
            r@[0].0@ == "Query"@ && r@[0].1@ == spec_meta_value(self.meta@, "Query"@),
            r@[1].0@ == "Description"@ && r@[1].1@ == spec_meta_value(self.meta@, "Description"@),
            r@[2].0@ == "Datetime"@ && r@[2].1@ == spec_meta_value(self.meta@, "Datetime"@),
            r@[3].0@ == "License"@ && r@[3].1@ == spec_meta_value(self.meta@, "License"@),
    {
        let mut r: Vec<(String, String)> = Vec::new();
        r.push(("Query".to_owned(), self.meta_value(&"Query".to_owned())));
        r.push(("Description".to_owned(), self.meta_value(&"Description".to_owned())));
        r.push(("Datetime".to_owned(), self.meta_value(&"Datetime".to_owned())));
        r.push(("License".to_owned(), self.meta_value(&"License".to_owned())));
        r
    }

    /// One metadata value, or empty text when absent.
    pub fn meta_value(&self, key: &String) -> (r: String)
        ensures
            r@ == spec_meta_value(self.meta@, key@),
    {
        match meta_lookup(&self.meta, key) {
            Option::Some(v) => v.clone(),
            Option::None => String::new(),
        }
    }
}

/// Whether a target's identifier equals any member of the exclusion
/// list, under the identifier equality rule (prefix comparison when
/// either side is partial).
pub open spec fn spec_excluded(t: Target, excl: Seq<Rvuid>) -> bool {
    exists|i: int| 0 <= i < excl.len() && spec_rvuid_eq(excl[i], t.rvuid)
}

/// The enumeration after exclusion: exactly the targets whose identifier
/// is in no member of the exclusion list, in order.
pub open spec fn spec_eligible(targets: Seq<Target>, excl: Seq<Rvuid>) -> Seq<Target> {
    targets.filter(|t: Target| !spec_excluded(t, excl))
}

/// Whether `x` equals any identifier in the list.
pub fn rvuid_listed(list: &Vec<Rvuid>, x: &Rvuid) -> (r: bool)
    ensures
        r == exists|i: int| 0 <= i < list@.len() && spec_rvuid_eq(list@[i], *x),
{
    let n: usize = list.len();
    let mut i: usize = 0;
    while i < n
        invariant
            i <= n,
            n == list@.len(),
            forall|j: int| 0 <= j < i ==> !spec_rvuid_eq(list@[j], *x),
        decreases n - i,
    {
        if list[i] == *x {
            return true;
        }
        i = i + 1;
    }
    false
}

impl Target {
    /// Keep exactly the targets whose identifier is not in the exclusion
    /// list, in their original order.
    pub fn filter_excluded(targets: Vec<Target>, completed_rvuids: &Vec<Rvuid>) -> (r: Vec<
        Target,
    >)
        ensures
            r@ == spec_eligible(targets@, completed_rvuids@),
    {
        let ghost pred = |t: Target| !spec_excluded(t, completed_rvuids@);
        let ghost all = targets@;
        let mut ts = targets;
        let mut out: Vec<Target> = Vec::new();
        while ts.len() > 0
            invariant
                ts@.len() <= all.len(),
                ts@ == all.skip(all.len() - ts@.len()),
                pred == (|t: Target| !spec_excluded(t, completed_rvuids@)),
                out@ == all.take(all.len() - ts@.len()).filter(pred),
            decreases ts@.len(),
        {
            let ghost k = all.len() - ts@.len();
            proof {
                reveal(Seq::filter);
                assert(ts@[0] == all[k]);
                assert(all.take(k + 1).drop_last() =~= all.take(k));
                assert(all.take(k + 1).last() == all[k]);
                assert(ts@.remove(0) =~= all.skip(k + 1));
            }
            let t = ts.remove(0);
            if !rvuid_listed(completed_rvuids, &t.rvuid) {
                out.push(t);
            }
            proof {
                reveal(Seq::filter);
            }
        }
        proof {
            assert(all.take(all.len() as int) =~= all);
        }
        out
    }

    /// How many targets survive exclusion: always the length of the
    /// filtered enumeration, so weighting and drawing stay consistent.
    pub fn count_eligible(targets: &Vec<Target>, completed_rvuids: &Vec<Rvuid>) -> (r: usize)
        ensures
            r == spec_eligible(targets@, completed_rvuids@).len(),
    {
        let ghost pred = |t: Target| !spec_excluded(t, completed_rvuids@);
        let n: usize = targets.len();
        let mut count: usize = 0;
        let mut i: usize = 0;
        while i < n
            invariant
                i <= n,
                n == targets@.len(),
                pred == (|t: Target| !spec_excluded(t, completed_rvuids@)),
                count <= i,
                count == targets@.take(i as int).filter(pred).len(),
            decreases n - i,
        {
            proof {
                reveal(Seq::filter);
                assert(targets@.take(i as int + 1).drop_last() =~= targets@.take(i as int));
                assert(targets@.take(i as int + 1).last() == targets@[i as int]);
            }
            if !rvuid_listed(completed_rvuids, &targets[i].rvuid) {
                count = count + 1;
            }
            i = i + 1;
        }
        proof {
            assert(targets@.take(n as int) =~= targets@);
        }
        count
    }

    /// A uniform draw over a target list: a member of the list on any
    /// non-empty input, and `EmptyPoolError` exactly on an empty one.
    pub fn choose_random(targets: &Vec<Target>) -> (r: Result<&Target, PsiError>)
        ensures
            (targets@.len() == 0) <==> (r is Err && r->Err_0 == PsiError::EmptyPoolError),
            targets@.len() > 0 ==> r is Ok,
            r is Ok ==> exists|i: int| 0 <= i < targets@.len() && *r->Ok_0 == targets@[i],
    {
        let n: usize = targets.len();
        if n == 0 {
            return Err(PsiError::EmptyPoolError);
        }
        let i: usize = crate::draw::draw_index(n);
        Ok(&targets[i])
    }
}

/// If a predicate holds of every element, filtering by it keeps the
/// whole sequence.
proof fn lemma_filter_all<A>(s: Seq<A>, pred: spec_fn(A) -> bool)
    requires
        forall|i: int| 0 <= i < s.len() ==> pred(s[i]),
    ensures
        s.filter(pred) == s,
    decreases s.len(),
{
    reveal(Seq::filter);
    if s.len() > 0 {
        lemma_filter_all(s.drop_last(), pred);
        assert(s.drop_last().filter(pred).push(s.last()) =~= s);
    }
}

/// Exclusion correctness: a target whose identifier belongs to the
/// exclusion list never appears in the filtered enumeration, and with the
/// exclusion list forced empty ("reuse" mode) the same enumeration comes
/// back whole.
pub proof fn lemma_exclusion_correct(targets: Seq<Target>, excl: Seq<Rvuid>)
    ensures
        forall|j: int|
            0 <= j < spec_eligible(targets, excl).len() ==> !spec_excluded(
                #[trigger] spec_eligible(targets, excl)[j],
                excl,
            ),
        excl.len() == 0 ==> spec_eligible(targets, excl) == targets,
{
    let pred = |t: Target| !spec_excluded(t, excl);
    assert forall|j: int| 0 <= j < targets.filter(pred).len() implies !spec_excluded(
        targets.filter(pred)[j],
        excl,
    ) by {
        targets.lemma_filter_pred(pred, j);
    }
    if excl.len() == 0 {
        assert(forall|i: int| 0 <= i < targets.len() ==> pred(targets[i]));
        lemma_filter_all(targets, pred);
    }
}

/// One persisted record of a concluded session: the target's identifier
/// and paths, and the self-reported outcome.
#[derive(Debug)]
pub struct CompletedTarget {
    pub rvuid: Rvuid,
    pub path: String,
    pub meta_path: Option<String>,
    pub hit: Option<bool>,
    pub score: Option<u32>,
    pub notes: Option<String>,
}

/// The fresh ledger record for a target: its identifier and paths, with
/// no outcome recorded yet.
pub open spec fn spec_completed_of(t: Target) -> CompletedTarget {
    CompletedTarget {
        rvuid: t.rvuid,
        path: t.path,
        meta_path: t.meta_path,
        hit: None,
        score: None,
        notes: None,
    }
}

impl From<Target> for CompletedTarget {
    fn from(t: Target) -> (r: CompletedTarget) {
        CompletedTarget {
            rvuid: t.rvuid,
            path: t.path,
            meta_path: t.meta_path,
            hit: None,
            score: None,
            notes: None,
        }
    }
}

impl vstd::std_specs::convert::FromSpecImpl<Target> for CompletedTarget {
    open spec fn obeys_from_spec() -> bool {
        true
    }

    open spec fn from_spec(t: Target) -> CompletedTarget {
        spec_completed_of(t)
    }
}

/// The numeric value of a decimal digit character.
pub open spec fn spec_digit_val(c: char) -> Option<u32> {
    match c {
        '0' => Some(0u32),
        '1' => Some(1u32),
        '2' => Some(2u32),
        '3' => Some(3u32),
        '4' => Some(4u32),
        '5' => Some(5u32),
        '6' => Some(6u32),
        '7' => Some(7u32),
        '8' => Some(8u32),
        '9' => Some(9u32),
        _ => None,
    }
}

fn digit_val(c: char) -> (r: Option<u32>)
    ensures
        r == spec_digit_val(c),
{
    match c {
        '0' => Some(0),
        '1' => Some(1),
        '2' => Some(2),
        '3' => Some(3),
        '4' => Some(4),
        '5' => Some(5),
        '6' => Some(6),
        '7' => Some(7),
        '8' => Some(8),
        '9' => Some(9),
        _ => None,
    }
}

/// Whether every character is a decimal digit.
pub open spec fn spec_all_digits(s: Seq<char>) -> bool {
    forall|i: int| 0 <= i < s.len() ==> (#[trigger] spec_digit_val(s[i])) is Some
}

/// The value of a decimal digit string.
pub open spec fn spec_digits_value(s: Seq<char>) -> int
    decreases s.len(),
{
    if s.len() == 0 {
        0
    } else {
        spec_digits_value(s.drop_last()) * 10 + match spec_digit_val(s.last()) {
            Option::Some(v) => v as int,
            Option::None => 0,
        }
    }
}

proof fn lemma_digits_value_nonneg(s: Seq<char>)
    ensures
        spec_digits_value(s) >= 0,
    decreases s.len(),
{
    if s.len() > 0 {
        lemma_digits_value_nonneg(s.drop_last());
    }
}

proof fn lemma_digits_value_mono(s: Seq<char>, i: int)
    requires
        0 <= i <= s.len(),
    ensures
        spec_digits_value(s) >= spec_digits_value(s.take(i)),
    decreases s.len() - i,
{
    if i < s.len() {
        lemma_digits_value_nonneg(s.take(i));
        assert(s.take(i + 1).drop_last() =~= s.take(i));
        lemma_digits_value_mono(s, i + 1);
    } else {
        assert(s.take(i) =~= s);
    }
}

/// The digit part of score input: an optional leading `+` sign removed.
pub open spec fn spec_score_body(s: Seq<char>) -> Seq<char> {
    if s.len() > 0 && s[0] == '+' {
        s.skip(1)
    } else {
        s
    }
}

/// What score input means: a score is stored only for text that is a
/// plain decimal integer (an optional `+` sign, then digits) whose value
/// lies in 0..=100; anything else — words, signs, out-of-range values —
/// is stored as unset, never clamped and never an error.
pub open spec fn spec_interpret_score(s: Seq<char>) -> Option<u32> {
    let d = spec_score_body(s);
    if d.len() > 0 && spec_all_digits(d) && spec_digits_value(d) <= 100 {
        Some(spec_digits_value(d) as u32)
    } else {
        None
    }
}

/// Interpret already-trimmed score input.
pub fn interpret_score(input: &str) -> (r: Option<u32>)
    ensures
        r == spec_interpret_score(input@),
{
    let cs = crate::text::chars_vec(input);
    let n: usize = cs.len();
    let start: usize = if n > 0 && cs[0] == '+' {
        1
    } else {
        0
    };
    let ghost d = spec_score_body(input@);
    proof {
        assert(d =~= input@.skip(start as int));
    }
    if n == start {
        return None;
    }
    let mut acc: u32 = 0;
    let mut i: usize = start;
    while i < n
        invariant
            start <= i <= n,
            n == cs@.len(),
            cs@ == input@,
            d == input@.skip(start as int),
            d == spec_score_body(input@),
            acc <= 100,
            spec_all_digits(d.take(i - start as int)),
            acc == spec_digits_value(d.take(i - start as int)),
        decreases n - i,
    {
        proof {
            assert(d.take(i + 1 - start as int).drop_last() =~= d.take(i - start as int));
            assert(d.take(i + 1 - start as int).last() == cs@[i as int]);
        }
        match digit_val(cs[i]) {
            Option::Some(v) => {
                acc = acc * 10 + v;
                i = i + 1;
                if acc > 100 {
                    proof {
                        if spec_all_digits(d) {
                            lemma_digits_value_mono(d, i - start as int);
                        }
                    }
                    return None;
                }
            },
            Option::None => {
                proof {
                    assert(spec_digit_val(d[i - start as int]) is None);
                }
                return None;
            },
        }
    }
    proof {
        assert(d.take(n - start as int) =~= d);
    }
    Some(acc)
}

/// What hit input means: yes and no answers (`y`, `yes`, `n`, `no`, in
/// any letter case) record a hit flag; anything else leaves it unset.
pub open spec fn spec_interpret_hit(s: Seq<char>) -> Option<bool> {
    let l = s.map_values(|c: char| spec_lower_char(c));
    if l == seq!['y'] || l == seq!['y', 'e', 's'] {
        Some(true)
    } else if l == seq!['n'] || l == seq!['n', 'o'] {
        Some(false)
    } else {
        None
    }
}

/// Interpret already-trimmed hit input.
pub fn interpret_hit(input: &str) -> (r: Option<bool>)
    ensures
        r == spec_interpret_hit(input@),
{
    let cs = crate::text::chars_vec(input);
    let n: usize = cs.len();
    let mut l: Vec<char> = Vec::new();
    let mut i: usize = 0;
    while i < n
        invariant
            i <= n,
            n == cs@.len(),
            cs@ == input@,
            l@ =~= input@.take(i as int).map_values(|c: char| spec_lower_char(c)),
        decreases n - i,
    {
        l.push(lower_char(cs[i]));
        i = i + 1;
        assert(l@ =~= input@.take(i as int).map_values(|c: char| spec_lower_char(c)));
    }
    proof {
        assert(input@.take(n as int) =~= input@);
    }
    let ghost ll = input@.map_values(|c: char| spec_lower_char(c));
    let m: usize = l.len();
    if m == 1 && l[0] == 'y' {
        proof {
            assert(ll =~= seq!['y']);
        }
        Some(true)
    } else if m == 3 && l[0] == 'y' && l[1] == 'e' && l[2] == 's' {
        proof {
            assert(ll =~= seq!['y', 'e', 's']);
        }
        Some(true)
    } else if m == 1 && l[0] == 'n' {
        proof {
            assert(ll =~= seq!['n']);
        }
        Some(false)
    } else if m == 2 && l[0] == 'n' && l[1] == 'o' {
        proof {
            assert(ll =~= seq!['n', 'o']);
        }
        Some(false)
    } else {
        proof {
            if ll == seq!['y'] {
                assert(ll.len() == 1 && ll[0] == 'y');
            }
            if ll == seq!['y', 'e', 's'] {
                assert(ll.len() == 3 && ll[0] == 'y' && ll[1] == 'e' && ll[2] == 's');
            }
            if ll == seq!['n'] {
                assert(ll.len() == 1 && ll[0] == 'n');
            }
            if ll == seq!['n', 'o'] {
                assert(ll.len() == 2 && ll[0] == 'n' && ll[1] == 'o');
            }
        }
        None
    }
}

/// Interpret already-trimmed notes input: empty text saves nothing.
pub fn interpret_notes(input: &str) -> (r: Option<String>)
    ensures
        (r is None) <==> input@.len() == 0,
        r is Some ==> r->Some_0@ == input@,
{
    if input.unicode_len() == 0 {
        None
    } else {
        Some(input.to_owned())
    }
}

impl CompletedTarget {
    /// Record the session's self-reported outcome from the three
    /// already-trimmed input lines: the hit answer, the score text and
    /// the free-text notes. A score outside 0..=100 or not a plain
    /// decimal integer is stored as unset, never clamped.
    pub fn apply_results(&mut self, hit_input: &str, score_input: &str, notes_input: &str)
        ensures
            final(self).hit == spec_interpret_hit(hit_input@),
            final(self).score == spec_interpret_score(score_input@),
            (final(self).notes is None) <==> notes_input@.len() == 0,
            final(self).notes is Some ==> final(self).notes->Some_0@ == notes_input@,
            final(self).rvuid == old(self).rvuid,
            final(self).path == old(self).path,
            final(self).meta_path == old(self).meta_path,
    {
        self.hit = interpret_hit(hit_input);
        self.score = interpret_score(score_input);
        self.notes = interpret_notes(notes_input);
    }
}

/// The exclusion set: the identifiers of all ledger records, or none at
/// all when reuse of completed targets is forced.
pub fn exclusion_identifiers(completed: &Vec<CompletedTarget>, reuse: bool) -> (r: Vec<Rvuid>)
    ensures
        reuse ==> r@.len() == 0,
        !reuse ==> r@.len() == completed@.len(),
        !reuse ==> forall|i: int|
            0 <= i < completed@.len() ==> spec_rvuid_eq(#[trigger] r@[i], completed@[i].rvuid)
                && r@[i]@ == completed@[i].rvuid@ && r@[i].spec_prefix()
                == completed@[i].rvuid.spec_prefix(),
{
    let mut r: Vec<Rvuid> = Vec::new();
    if reuse {
        return r;
    }
    let n: usize = completed.len();
    let mut i: usize = 0;
    while i < n
        invariant
            i <= n,
            n == completed@.len(),
            r@.len() == i,
            forall|j: int|
                0 <= j < i ==> (#[trigger] r@[j])@ == completed@[j].rvuid@ && r@[j].spec_prefix()
                    == completed@[j].rvuid.spec_prefix(),
        decreases n - i,
    {
        r.push(completed[i].rvuid.clone());
        i = i + 1;
    }
    r
}

} // verus!
