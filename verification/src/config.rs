//! Connection profiles: the non-secret fields of a connection, saved under
//! a name and loaded back later. Passwords and passphrases are never part
//! of a profile.
//!
//! `ProfileFile` is the content of the profiles file; reading and writing
//! that file (TOML in the user's configuration directory) is up to the
//! caller.
use vstd::prelude::*;

use crate::text::{chars_of, copy_string, lex_lt, lemma_lex_total, lemma_lex_transitive, str_lt};

verus! {

/// The saved, non-secret fields of one connection.
#[derive(Debug, Clone)]
pub enum Profile {
    Serial { port_name: String, baud_rate: u32, newline: String },
    Ssh { host: String, port: u16, username: String, newline: String },
}

impl Profile {
    /// A copy of this profile.
    pub fn duplicate(&self) -> (r: Profile)
        ensures
            r == *self,
    {
        match self {
            Profile::Serial { port_name, baud_rate, newline } => Profile::Serial {
                port_name: copy_string(port_name),
                baud_rate: *baud_rate,
                newline: copy_string(newline),
            },
            Profile::Ssh { host, port, username, newline } => Profile::Ssh {
                host: copy_string(host),
                port: *port,
                username: copy_string(username),
                newline: copy_string(newline),
            },
        }
    }
}

/// Whether some entry of `es` is named `name`.
pub open spec fn has_name(es: Seq<(String, Profile)>, name: Seq<char>) -> bool {
    exists|i: int| 0 <= i < es.len() && (#[trigger] es[i]).0@ == name
}

/// The position of the entry named `name`.
pub open spec fn index_of(es: Seq<(String, Profile)>, name: Seq<char>) -> int {
    choose|i: int| 0 <= i < es.len() && (#[trigger] es[i]).0@ == name
}

/// No two entries share a name.
pub open spec fn distinct_names(es: Seq<(String, Profile)>) -> bool {
    forall|i: int, j: int|
        0 <= i < es.len() && 0 <= j < es.len() && i != j ==> (#[trigger] es[i]).0@ != (
        #[trigger] es[j]).0@
}

/// The names of the entries, in order.
pub open spec fn entry_names(es: Seq<(String, Profile)>) -> Seq<Seq<char>> {
    es.map_values(|e: (String, Profile)| e.0@)
}

/// The entries as a map from name to profile.
pub open spec fn entries_map(es: Seq<(String, Profile)>) -> Map<Seq<char>, Profile> {
    Map::new(|name: Seq<char>| has_name(es, name), |name: Seq<char>| es[index_of(es, name)].1)
}

/// The saved profiles, each under its own name.
pub struct ProfileFile {
    entries: Vec<(String, Profile)>,
}

impl View for ProfileFile {
    type V = Map<Seq<char>, Profile>;

    closed spec fn view(&self) -> Map<Seq<char>, Profile> {
        entries_map(self.entries@)
    }
}

proof fn lemma_index_of_unique(es: Seq<(String, Profile)>, i: int)
    requires
        distinct_names(es),
        0 <= i < es.len(),
    ensures
        has_name(es, es[i].0@),
        index_of(es, es[i].0@) == i,
{
    let name = es[i].0@;
    assert(has_name(es, name));
    let j = index_of(es, name);
    assert(es[j].0@ == name);
}

impl ProfileFile {
    /// Names are unique.
    pub closed spec fn wf(&self) -> bool {
        distinct_names(self.entries@)
    }

    /// The names of the saved profiles, in the order they were first saved.
    pub closed spec fn order(&self) -> Seq<Seq<char>> {
        entry_names(self.entries@)
    }

    /// A file with no profiles.
    pub fn new() -> (f: ProfileFile)
        ensures
            f.wf(),
            f@ == Map::<Seq<char>, Profile>::empty(),
            f.order() == Seq::<Seq<char>>::empty(),
    {
        let f = ProfileFile { entries: Vec::new() };
        proof {
            assert(f@ =~= Map::<Seq<char>, Profile>::empty());
            assert(f.order() =~= Seq::<Seq<char>>::empty());
        }
        f
    }

    /// The profiles, each with its name, in the order they were first saved.
    pub fn entries(&self) -> (r: &[(String, Profile)])
        requires
            self.wf(),
        ensures
            distinct_names(r@),
            entries_map(r@) == self@,
            entry_names(r@) == self.order(),
    {
        self.entries.as_slice()
    }

    /// The position of the profile named `name`, if there is one.
    fn find(&self, name: &str) -> (r: Option<usize>)
        requires
            self.wf(),
        ensures
            r is None <==> !self@.dom().contains(name@),
            r matches Some(i) ==> i < self.entries@.len() && self.entries@[i as int].0@ == name@
                && index_of(self.entries@, name@) == i,
    {
        let target = chars_of(name);
        let mut i: usize = 0;
        while i < self.entries.len()
            invariant
                i <= self.entries@.len(),
                target@ == name@,
                distinct_names(self.entries@),
                forall|j: int| 0 <= j < i ==> (#[trigger] self.entries@[j]).0@ != name@,
            decreases self.entries.len() - i,
        {
            let entry_name = chars_of(self.entries[i].0.as_str());
            if crate::text::chars_eq_str(entry_name.as_slice(), name) {
                proof {
                    lemma_index_of_unique(self.entries@, i as int);
                }
                return Some(i);
            }
            i = i + 1;
        }
        None
    }
}

/// The profile saved under `name`.
pub fn load_profile(file: &ProfileFile, name: &str) -> (r: Result<Profile, String>)
    requires
        file.wf(),
    ensures
        file@.dom().contains(name@) ==> r == Ok::<Profile, String>(file@[name@]),
        !file@.dom().contains(name@) ==> r is Err && r->Err_0@ == "no saved profile named '"@
            + name@ + "'"@,
{
    match file.find(name) {
        Some(i) => Ok(file.entries[i].1.duplicate()),
        None => {
            let mut msg = String::from_str("no saved profile named '");
            msg.append(name);
            msg.append("'");
            Err(msg)
        },
    }
}

/// Saves `profile` under `name`, replacing any profile of that name. A
/// replaced profile keeps its place; a new name comes last.
pub fn save_profile(file: &mut ProfileFile, name: &str, profile: Profile)
    requires
        old(file).wf(),
    ensures
        final(file).wf(),
        final(file)@ == old(file)@.insert(name@, profile),
        old(file)@.dom().contains(name@) ==> final(file).order() == old(file).order(),
        !old(file)@.dom().contains(name@) ==> final(file).order() == old(file).order().push(name@),
{
    let ghost old_es = file.entries@;
    let key = String::from_str(name);
    match file.find(name) {
        Some(i) => {
            file.entries.set(i, (key, profile));
            proof {
                let es = file.entries@;
                assert(es[i as int].0@ == old_es[i as int].0@);
                assert forall|a: int, b: int|
                    0 <= a < es.len() && 0 <= b < es.len() && a != b implies (
                    #[trigger] es[a]).0@ != (#[trigger] es[b]).0@ by {
                    assert(a != i ==> es[a] == old_es[a]);
                    assert(b != i ==> es[b] == old_es[b]);
                }
                assert forall|k: Seq<char>| #[trigger] has_name(es, k) == has_name(old_es, k) by {
                    if has_name(old_es, k) {
                        let j = choose|j: int| 0 <= j < old_es.len() && (#[trigger] old_es[j]).0@ == k;
                        if j != i {
                            assert(es[j] == old_es[j]);
                        }
                        assert(es[j].0@ == k);
                    }
                    if has_name(es, k) {
                        let j = choose|j: int| 0 <= j < es.len() && (#[trigger] es[j]).0@ == k;
                        if j != i {
                            assert(es[j] == old_es[j]);
                        }
                        assert(old_es[j].0@ == k);
                    }
                }
                assert forall|k: Seq<char>| has_name(es, k) implies #[trigger] es[index_of(es, k)].1
                    == old(file)@.insert(name@, profile)[k] by {
                    let j = index_of(es, k);
                    lemma_index_of_unique(es, j);
                    if k != name@ {
                        assert(j != i);
                        assert(es[j] == old_es[j]);
                        lemma_index_of_unique(old_es, j);
                    } else {
                        lemma_index_of_unique(es, i as int);
                    }
                }
                assert(file@ =~= old(file)@.insert(name@, profile));
                assert(entry_names(es) =~= entry_names(old_es));
            }
        },
        None => {
            file.entries.push((key, profile));
            proof {
                let es = file.entries@;
                let n = old_es.len();
                assert forall|a: int, b: int|
                    0 <= a < es.len() && 0 <= b < es.len() && a != b implies (
                    #[trigger] es[a]).0@ != (#[trigger] es[b]).0@ by {
                    if a == n {
                        assert(es[b] == old_es[b]);
                    } else if b == n {
                        assert(es[a] == old_es[a]);
                    } else {
                        assert(es[a] == old_es[a]);
                        assert(es[b] == old_es[b]);
                    }
                }
                assert forall|k: Seq<char>| #[trigger] has_name(es, k) == (has_name(old_es, k) || k
                    == name@) by {
                    if has_name(old_es, k) {
                        let j = choose|j: int| 0 <= j < old_es.len() && (#[trigger] old_es[j]).0@ == k;
                        assert(es[j] == old_es[j]);
                    }
                    if k == name@ {
                        assert(es[n as int].0@ == name@);
                    }
                    if has_name(es, k) && k != name@ {
                        let j = choose|j: int| 0 <= j < es.len() && (#[trigger] es[j]).0@ == k;
                        assert(j != n);
                        assert(es[j] == old_es[j]);
                    }
                }
                assert forall|k: Seq<char>| has_name(es, k) implies #[trigger] es[index_of(es, k)].1
                    == old(file)@.insert(name@, profile)[k] by {
                    let j = index_of(es, k);
                    lemma_index_of_unique(es, j);
                    if k != name@ {
                        assert(j != n);
                        assert(es[j] == old_es[j]);
                        lemma_index_of_unique(old_es, j);
                    }
                }
                assert(file@ =~= old(file)@.insert(name@, profile));
                assert(entry_names(es) =~= entry_names(old_es).push(name@));
            }
        },
    }
}

/// The names held by `v`.
pub open spec fn names_of(v: Seq<String>) -> Seq<Seq<char>> {
    v.map_values(|s: String| s@)
}

/// Each name sorts strictly before the next, so none occurs twice.
pub open spec fn strictly_sorted(names: Seq<Seq<char>>) -> bool {
    forall|i: int, j: int| 0 <= i < j < names.len() ==> lex_lt(#[trigger] names[i], #[trigger] names[j])
}

/// The names of all saved profiles, sorted.
pub fn list_profiles(file: &ProfileFile) -> (r: Vec<String>)
    requires
        file.wf(),
    ensures
        strictly_sorted(names_of(r@)),
        forall|name: Seq<char>| #[trigger] file@.dom().contains(name) <==> names_of(r@).contains(name),
{
    let es = &file.entries;
    let mut r: Vec<String> = Vec::new();
    let mut i: usize = 0;
    while i < es.len()
        invariant
            i <= es@.len(),
            distinct_names(es@),
            strictly_sorted(names_of(r@)),
            forall|name: Seq<char>|
                #![trigger names_of(r@).contains(name)]
                names_of(r@).contains(name) <==> exists|t: int| 0 <= t < i && (#[trigger] es@[t]).0@ == name,
        decreases es.len() - i,
    {
        let name = copy_string(&es[i].0);
        let ghost ns = names_of(r@);
        proof {
            assert forall|m: int| 0 <= m < ns.len() implies ns[m] != name@ by {
                assert(ns.contains(ns[m]));
                let t = choose|t: int| 0 <= t < i && (#[trigger] es@[t]).0@ == ns[m];
                assert(t != i);
            }
        }
        let mut j: usize = 0;
        while j < r.len() && !str_lt(name.as_str(), r[j].as_str())
            invariant
                j <= r@.len(),
                ns == names_of(r@),
                forall|m: int| 0 <= m < j ==> !lex_lt(name@, #[trigger] ns[m]),
            decreases r.len() - j,
        {
            j = j + 1;
        }
        proof {
            assert forall|m: int| 0 <= m < j implies lex_lt(#[trigger] ns[m], name@) by {
                lemma_lex_total(ns[m], name@);
            }
        }
        r.insert(j, name);
        proof {
            let nn = names_of(r@);
            assert(nn =~= ns.insert(j as int, name@));
            assert forall|p: int, q: int| 0 <= p < q < nn.len() implies lex_lt(#[trigger] nn[p], #[trigger] nn[q]) by {
                if q < j {
                    assert(nn[p] == ns[p] && nn[q] == ns[q]);
                } else if q == j {
                    assert(nn[p] == ns[p]);
                } else if p == j {
                    assert(nn[q] == ns[q - 1]);
                    assert(lex_lt(name@, ns[j as int]));
                    if q - 1 > j {
                        lemma_lex_transitive(name@, ns[j as int], ns[q - 1]);
                    }
                } else if p < j {
                    assert(nn[p] == ns[p] && nn[q] == ns[q - 1]);
                } else {
                    assert(nn[p] == ns[p - 1] && nn[q] == ns[q - 1]);
                }
            }
            assert forall|k: Seq<char>| nn.contains(k) <==> exists|t: int| 0 <= t < i + 1 && (#[trigger] es@[t]).0@ == k by {
                if nn.contains(k) {
                    let m = choose|m: int| 0 <= m < nn.len() && nn[m] == k;
                    if m == j {
                        assert(es@[i as int].0@ == k);
                    } else {
                        let m2 = if m < j { m } else { m - 1 };
                        assert(ns[m2] == k);
                        assert(ns.contains(k));
                    }
                }
                if exists|t: int| 0 <= t < i + 1 && (#[trigger] es@[t]).0@ == k {
                    let t = choose|t: int| 0 <= t < i + 1 && (#[trigger] es@[t]).0@ == k;
                    if t == i {
                        assert(nn[j as int] == k);
                    } else {
                        assert(ns.contains(k));
                        let m = choose|m: int| 0 <= m < ns.len() && ns[m] == k;
                        if m < j {
                            assert(nn[m] == k);
                        } else {
                            assert(nn[m + 1] == k);
                        }
                    }
                }
            }
        }
        i = i + 1;
    }
    proof {
        assert forall|name: Seq<char>| #[trigger] file@.dom().contains(name) <==> names_of(r@).contains(name) by {
            if file@.dom().contains(name) {
                let t = choose|t: int| 0 <= t < es@.len() && (#[trigger] es@[t]).0@ == name;
            }
        }
    }
    r
}

/// Loading a name right after saving a profile under it gives that profile
/// back; the profiles under other names are untouched.
pub proof fn lemma_load_after_save(before: Map<Seq<char>, Profile>, name: Seq<char>, profile: Profile, other: Seq<char>)
    requires
        other != name,
    ensures
        before.insert(name, profile).dom().contains(name),
        before.insert(name, profile)[name] == profile,
        before.insert(name, profile).dom().contains(other) == before.dom().contains(other),
        before.dom().contains(other) ==> before.insert(name, profile)[other] == before[other],
{
}

} // verus!
