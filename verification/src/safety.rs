//! The immunity rules: which processes no heuristic or mitigation may touch.
use vstd::prelude::*;
use crate::text::{
    ends_with_exe, is_whitespace, lowercase, strip_exe, strip_exe_str, str_eq, to_lowercase, trim_end_ws,
    trim_start_ws, trim_str, trim_ws,
};

verus! {

/// Critical Windows system processes, security products and core hardware
/// driver services that must never be terminated or throttled.
pub open spec fn hardcoded_immune_list() -> Seq<&'static str> {
    seq![
        "system", "system idle process", "idle", "registry", "smss.exe", "csrss.exe",
        "wininit.exe", "services.exe", "lsass.exe", "lsm.exe", "winlogon.exe", "dwm.exe",
        "explorer.exe", "sihost.exe", "taskhostw.exe", "fontdrvhost.exe", "audiodg.exe",
        "svchost.exe", "msmpeng.exe", "nissrv.exe", "securityhealthservice.exe",
        "securityhealthsystray.exe", "smartscreen.exe", "nvcontainer.exe",
        "nvdisplay.container.exe", "nvsphelper64.exe", "amdfendrsr.exe",
        "radeontrafficshaper.exe", "igfxcuiservice.exe", "igfxem.exe", "rtkaudioservice64.exe",
        "frostbyte.exe", "frostbyte-cli.exe", "frostbyte-app.exe", "ntoskrnl.exe", "avp.exe",
        "bdservicehost.exe", "savservice.exe", "csfalconservice.exe", "radeonsoftware.exe",
    ]
}

/// The hardcoded immune names, in order.
pub fn hardcoded_immune_processes() -> (r: Vec<&'static str>)
    ensures
        r@ == hardcoded_immune_list(),
{
    let r = vec![
        "system", "system idle process", "idle", "registry", "smss.exe", "csrss.exe",
        "wininit.exe", "services.exe", "lsass.exe", "lsm.exe", "winlogon.exe", "dwm.exe",
        "explorer.exe", "sihost.exe", "taskhostw.exe", "fontdrvhost.exe", "audiodg.exe",
        "svchost.exe", "msmpeng.exe", "nissrv.exe", "securityhealthservice.exe",
        "securityhealthsystray.exe", "smartscreen.exe", "nvcontainer.exe",
        "nvdisplay.container.exe", "nvsphelper64.exe", "amdfendrsr.exe",
        "radeontrafficshaper.exe", "igfxcuiservice.exe", "igfxem.exe", "rtkaudioservice64.exe",
        "frostbyte.exe", "frostbyte-cli.exe", "frostbyte-app.exe", "ntoskrnl.exe", "avp.exe",
        "bdservicehost.exe", "savservice.exe", "csfalconservice.exe", "radeonsoftware.exe",
    ];
    assert(r@ =~= hardcoded_immune_list());
    r
}

/// Whether the normalised name `t` matches a hardcoded entry, directly or
/// once trailing `.exe` suffixes are removed from both.
pub open spec fn hardcoded_match(t: Seq<char>) -> bool {
    exists|i: int|
        0 <= i < hardcoded_immune_list().len() && (t == (#[trigger] hardcoded_immune_list()[i])@
            || strip_exe(t) == strip_exe(hardcoded_immune_list()[i]@))
}

/// Whether the normalised name `t` is immune given the custom whitelist.
pub open spec fn immune_name(t: Seq<char>, custom: Set<Seq<char>>) -> bool {
    ||| hardcoded_match(t)
    ||| custom.contains(t)
    ||| custom.contains(strip_exe(t))
}

/// The form in which a process name is compared: lowercased, then trimmed.
pub open spec fn normalized(name: Seq<char>) -> Seq<char> {
    trim_ws(lowercase(name))
}

/// Protects processes from any aggressive action: a fixed list of system
/// processes and a user whitelist of lowercased names.
pub struct SafetyEngine {
    custom_whitelist: Vec<String>,
}

impl View for SafetyEngine {
    type V = Set<Seq<char>>;

    /// The user whitelist, as a set of names.
    closed spec fn view(&self) -> Set<Seq<char>> {
        Set::new(|n: Seq<char>| exists|i: int| 0 <= i < self.custom_whitelist@.len() && (#[trigger] self.custom_whitelist@[i])@ == n)
    }
}

impl SafetyEngine {
    /// Whether this engine protects a process of the given name.
    pub open spec fn immune(&self, name: Seq<char>) -> bool {
        immune_name(normalized(name), self@)
    }

    /// An engine with an empty user whitelist.
    pub fn new() -> (r: SafetyEngine)
        ensures
            r@ == Set::<Seq<char>>::empty(),
    {
        let r = SafetyEngine { custom_whitelist: Vec::new() };
        assert(r@ =~= Set::<Seq<char>>::empty());
        r
    }

    /// An engine whose user whitelist holds the lowercased `names`.
    pub fn with_custom_whitelist(names: &[&str]) -> (r: SafetyEngine)
        ensures
            r@ == Set::new(|n: Seq<char>| exists|i: int| 0 <= i < names@.len() && n == lowercase((#[trigger] names@[i])@)),
    {
        let mut r = SafetyEngine::new();
        let mut k: usize = 0;
        while k < names.len()
            invariant
                k <= names@.len(),
                r@ == Set::new(|n: Seq<char>| exists|i: int| 0 <= i < k && n == lowercase((#[trigger] names@[i])@)),
            decreases names@.len() - k,
        {
            let ghost before = r@;
            r.add_to_whitelist(names[k]);
            assert(r@ =~= Set::new(|n: Seq<char>| exists|i: int| 0 <= i < k + 1 && n == lowercase((#[trigger] names@[i])@))) by {
                assert forall|n: Seq<char>| r@.contains(n) implies exists|i: int| 0 <= i < k + 1 && n == lowercase((#[trigger] names@[i])@) by {
                    if n != lowercase(names@[k as int]@) {
                        assert(before.contains(n));
                    }
                }
            }
            k = k + 1;
        }
        r
    }

    /// Whether `s` is in the user whitelist.
    fn whitelist_contains(&self, s: &str) -> (r: bool)
        ensures
            r == self@.contains(s@),
    {
        let mut i: usize = 0;
        while i < self.custom_whitelist.len()
            invariant
                i <= self.custom_whitelist@.len(),
                forall|j: int| 0 <= j < i ==> (#[trigger] self.custom_whitelist@[j])@ != s@,
            decreases self.custom_whitelist@.len() - i,
        {
            if str_eq(self.custom_whitelist[i].as_str(), s) {
                return true;
            }
            i = i + 1;
        }
        false
    }

    /// Returns true if the process name is protected from any aggressive action.
    pub fn is_immune(&self, process_name: &str) -> (r: bool)
        ensures
            r == self.immune(process_name@),
    {
        let lower = to_lowercase(process_name);
        self.immune_lowercased(lower.as_str())
    }

    /// The immunity rules applied to a name that is already lowercased: it
    /// is trimmed, then matched against the hardcoded list and the user
    /// whitelist, directly or without trailing `.exe` suffixes.
    pub fn immune_lowercased(&self, lower: &str) -> (r: bool)
        ensures
            r == immune_name(trim_ws(lower@), self@),
    {
        let trimmed = trim_str(lower);
        let stripped = strip_exe_str(trimmed);
        let list = hardcoded_immune_processes();
        let mut i: usize = 0;
        while i < list.len()
            invariant
                list@ == hardcoded_immune_list(),
                i <= list@.len(),
                trimmed@ == trim_ws(lower@),
                stripped@ == strip_exe(trimmed@),
                forall|j: int| 0 <= j < i ==> !(trimmed@ == (#[trigger] hardcoded_immune_list()[j])@
                    || strip_exe(trimmed@) == strip_exe(hardcoded_immune_list()[j]@)),
            decreases list@.len() - i,
        {
            let immune = list[i];
            if str_eq(trimmed, immune) || str_eq(stripped, strip_exe_str(immune)) {
                return true;
            }
            i = i + 1;
        }
        self.whitelist_contains(trimmed) || self.whitelist_contains(stripped)
    }

    /// Adds the lowercased name to the user whitelist.
    pub fn add_to_whitelist(&mut self, process_name: &str)
        ensures
            final(self)@ == old(self)@.insert(lowercase(process_name@)),
    {
        let lower = to_lowercase(process_name);
        if !self.whitelist_contains(lower.as_str()) {
            let ghost before = self.custom_whitelist@;
            self.custom_whitelist.push(lower);
            assert(self@ =~= old(self)@.insert(lowercase(process_name@))) by {
                assert(self.custom_whitelist@[before.len() as int] == lower);
                assert forall|n: Seq<char>| old(self)@.contains(n) implies self@.contains(n) by {
                    let i = choose|i: int| 0 <= i < before.len() && (#[trigger] before[i])@ == n;
                    assert(self.custom_whitelist@[i] == before[i]);
                }
                assert forall|n: Seq<char>| self@.contains(n) implies old(self)@.insert(lowercase(process_name@)).contains(n) by {
                    let i = choose|i: int| 0 <= i < self.custom_whitelist@.len() && (#[trigger] self.custom_whitelist@[i])@ == n;
                    if i < before.len() {
                        assert(before[i] == self.custom_whitelist@[i]);
                    }
                }
            }
        } else {
            assert(self@ =~= old(self)@.insert(lowercase(process_name@)));
        }
    }

    /// Removes the lowercased name from the user whitelist.
    pub fn remove_from_whitelist(&mut self, process_name: &str)
        ensures
            final(self)@ == old(self)@.remove(lowercase(process_name@)),
    {
        let lower = to_lowercase(process_name);
        let mut kept: Vec<String> = Vec::new();
        let mut i: usize = 0;
        let n = self.custom_whitelist.len();
        while i < n
            invariant
                n == self.custom_whitelist@.len(),
                self.custom_whitelist@ == old(self).custom_whitelist@,
                i <= n,
                forall|k: int| 0 <= k < kept@.len() ==> (#[trigger] kept@[k])@ != lower@,
                forall|k: int| 0 <= k < kept@.len() ==> exists|j: int| 0 <= j < i && (#[trigger] kept@[k])@ == (#[trigger] self.custom_whitelist@[j])@,
                forall|j: int| 0 <= j < i && (#[trigger] self.custom_whitelist@[j])@ != lower@ ==> exists|k: int| 0 <= k < kept@.len() && (#[trigger] kept@[k])@ == self.custom_whitelist@[j]@,
            decreases n - i,
        {
            if !str_eq(self.custom_whitelist[i].as_str(), lower.as_str()) {
                let c = self.custom_whitelist[i].clone();
                let ghost prev = kept@;
                kept.push(c);
                proof {
                    assert(kept@[prev.len() as int] == c);
                    assert forall|k: int| 0 <= k < kept@.len() implies exists|j: int| 0 <= j < i + 1 && (#[trigger] kept@[k])@ == (#[trigger] self.custom_whitelist@[j])@ by {
                        if k < prev.len() {
                            assert(kept@[k] == prev[k]);
                        } else {
                            assert(kept@[k]@ == self.custom_whitelist@[i as int]@);
                        }
                    }
                    assert forall|j: int| 0 <= j < i + 1 && (#[trigger] self.custom_whitelist@[j])@ != lower@ implies exists|k: int| 0 <= k < kept@.len() && (#[trigger] kept@[k])@ == self.custom_whitelist@[j]@ by {
                        if j < i {
                            let k = choose|k: int| 0 <= k < prev.len() && (#[trigger] prev[k])@ == self.custom_whitelist@[j]@;
                            assert(kept@[k] == prev[k]);
                        } else {
                            assert(kept@[prev.len() as int]@ == self.custom_whitelist@[j]@);
                        }
                    }
                }
            }
            i = i + 1;
        }
        let ghost old_list = self.custom_whitelist@;
        self.custom_whitelist = kept;
        assert(self@ =~= old(self)@.remove(lowercase(process_name@))) by {
            assert forall|n: Seq<char>| self@.contains(n) implies old(self)@.remove(lowercase(process_name@)).contains(n) by {
                let k = choose|k: int| 0 <= k < kept@.len() && (#[trigger] kept@[k])@ == n;
                let j = choose|j: int| 0 <= j < old_list.len() && (#[trigger] kept@[k])@ == (#[trigger] old_list[j])@;
            }
            assert forall|n: Seq<char>| old(self)@.remove(lowercase(process_name@)).contains(n) implies self@.contains(n) by {
                let j = choose|j: int| 0 <= j < old_list.len() && (#[trigger] old_list[j])@ == n;
                let k = choose|k: int| 0 <= k < kept@.len() && (#[trigger] kept@[k])@ == old_list[j]@;
            }
        }
    }

}

impl Default for SafetyEngine {
    /// Same as [`SafetyEngine::new`].
    fn default() -> (r: SafetyEngine)
        ensures
            r@ == Set::<Seq<char>>::empty(),
    {
        SafetyEngine::new()
    }
}

/// No edit of the user whitelist can revoke the immunity of a process that
/// matches the hardcoded list.
pub proof fn law_hardcoded_immunity_is_permanent(name: Seq<char>, whitelist: Set<Seq<char>>)
    requires
        hardcoded_match(normalized(name)),
    ensures
        immune_name(normalized(name), whitelist),
{
}

/// A name added to the whitelist is immune afterwards, provided its
/// lowercase form has no surrounding whitespace (which the comparison trims).
pub proof fn law_added_name_is_immune(before: Set<Seq<char>>, name: Seq<char>)
    requires
        trim_ws(lowercase(name)) == lowercase(name),
    ensures
        immune_name(normalized(name), before.insert(lowercase(name))),
{
}

/// Adding a name that was not whitelisted and then removing it leaves the
/// whitelist as it was.
pub proof fn law_add_then_remove_restores(before: Set<Seq<char>>, name: Seq<char>)
    requires
        !before.contains(lowercase(name)),
    ensures
        before.insert(lowercase(name)).remove(lowercase(name)) == before,
{
    assert(before.insert(lowercase(name)).remove(lowercase(name)) =~= before);
}

/// Adding a name to the whitelist never withdraws immunity from any process.
pub proof fn law_adding_never_withdraws_immunity(before: Set<Seq<char>>, added: Seq<char>, name: Seq<char>)
    requires
        immune_name(normalized(name), before),
    ensures
        immune_name(normalized(name), before.insert(added)),
{
}

/// The whitelist after the lowercased `names` are added one by one to
/// `start`.
pub open spec fn whitelist_after_adds(start: Set<Seq<char>>, names: Seq<&str>) -> Set<Seq<char>>
    decreases names.len(),
{
    if names.len() == 0 {
        start
    } else {
        whitelist_after_adds(start, names.drop_last()).insert(lowercase(names.last()@))
    }
}

/// An engine built from a list of names whitelists exactly what a new
/// engine whitelists after each of the names is added to it in turn.
pub proof fn law_custom_whitelist_is_repeated_add(names: Seq<&str>)
    ensures
        whitelist_after_adds(Set::empty(), names) == Set::new(
            |n: Seq<char>| exists|i: int| 0 <= i < names.len() && n == lowercase((#[trigger] names[i])@),
        ),
    decreases names.len(),
{
    let target = Set::new(|n: Seq<char>| exists|i: int| 0 <= i < names.len() && n == lowercase((#[trigger] names[i])@));
    if names.len() == 0 {
        assert(whitelist_after_adds(Set::empty(), names) =~= target);
    } else {
        let rest = names.drop_last();
        law_custom_whitelist_is_repeated_add(rest);
        assert forall|n: Seq<char>| whitelist_after_adds(Set::empty(), names).contains(n) <==> target.contains(n) by {
            if whitelist_after_adds(Set::empty(), rest).contains(n) {
                let i = choose|i: int| 0 <= i < rest.len() && n == lowercase((#[trigger] rest[i])@);
                assert(names[i] == rest[i]);
            }
            if target.contains(n) {
                let i = choose|i: int| 0 <= i < names.len() && n == lowercase((#[trigger] names[i])@);
                if i < rest.len() {
                    assert(rest[i] == names[i]);
                }
            }
        }
        assert(whitelist_after_adds(Set::empty(), names) =~= target);
    }
}

proof fn lemma_trim_start_push_whitespace(s: Seq<char>, c: char)
    requires
        is_whitespace(c),
    ensures
        trim_start_ws(s.push(c)) == if trim_start_ws(s).len() == 0 {
            Seq::<char>::empty()
        } else {
            trim_start_ws(s).push(c)
        },
    decreases s.len(),
{
    assert(s.push(c)[0] == if s.len() == 0 { c } else { s[0] });
    if s.len() == 0 {
        assert(s.push(c).drop_first() =~= Seq::<char>::empty());
        assert(trim_start_ws(Seq::<char>::empty()) == Seq::<char>::empty());
    } else if is_whitespace(s[0]) {
        assert(s.push(c).drop_first() =~= s.drop_first().push(c));
        lemma_trim_start_push_whitespace(s.drop_first(), c);
    }
}

/// Whitespace around a lowercased name never changes whether it is immune:
/// the comparison trims it, whatever the whitelist holds.
pub proof fn law_surrounding_whitespace_is_ignored(t: Seq<char>, whitelist: Set<Seq<char>>)
    ensures
        immune_name(trim_ws(seq![' '] + t + seq![' ']), whitelist) == immune_name(trim_ws(t), whitelist),
{
    let padded = seq![' '] + t + seq![' '];
    assert(is_whitespace(' '));
    assert(padded.drop_first() =~= t.push(' '));
    assert(trim_start_ws(padded) == trim_start_ws(t.push(' ')));
    lemma_trim_start_push_whitespace(t, ' ');
    let u = trim_start_ws(t);
    if u.len() > 0 {
        assert(u.push(' ').drop_last() =~= u);
    }
    assert(trim_ws(padded) == trim_ws(t));
}

/// For the hardcoded list, a lowercased name without surrounding whitespace
/// is immune with or without an `.exe` suffix.
pub proof fn law_hardcoded_match_ignores_exe_suffix(t: Seq<char>)
    requires
        t.len() > 0 ==> !is_whitespace(t[0]) && !is_whitespace(t.last()),
    ensures
        immune_name(trim_ws(t + seq!['.', 'e', 'x', 'e']), Set::empty()) == immune_name(trim_ws(t), Set::empty()),
{
    let x = t + seq!['.', 'e', 'x', 'e'];
    assert(x[x.len() - 1] == 'e');
    assert(x.len() > 0 && !is_whitespace(x[0])) by {
        if t.len() > 0 {
            assert(x[0] == t[0]);
        } else {
            assert(x[0] == '.');
        }
    }
    assert(trim_start_ws(x) == x);
    assert(trim_end_ws(x) == x);
    assert(trim_start_ws(t) == t);
    assert(trim_end_ws(t) == t);
    assert(ends_with_exe(x));
    assert(x.subrange(0, x.len() - 4) =~= t);
    assert(strip_exe(x) == strip_exe(t));
    let e = Set::<Seq<char>>::empty();
    assert(hardcoded_match(x) == hardcoded_match(t)) by {
        if hardcoded_match(x) {
            let i = choose|i: int| 0 <= i < hardcoded_immune_list().len() && (x == (#[trigger] hardcoded_immune_list()[i])@
                || strip_exe(x) == strip_exe(hardcoded_immune_list()[i]@));
            assert(strip_exe(t) == strip_exe(hardcoded_immune_list()[i]@));
        }
        if hardcoded_match(t) {
            let i = choose|i: int| 0 <= i < hardcoded_immune_list().len() && (t == (#[trigger] hardcoded_immune_list()[i])@
                || strip_exe(t) == strip_exe(hardcoded_immune_list()[i]@));
            assert(strip_exe(x) == strip_exe(hardcoded_immune_list()[i]@));
        }
    }
}

} // verus!
