use vstd::prelude::*;
use vstd::string::StringExecFns;

use crate::text::bytes_to_text;

verus! {

/// The decimal digits of `n`, most significant first, as ASCII bytes.
pub open spec fn dec_digits(n: nat) -> Seq<u8>
    decreases n,
{
    if n < 10 {
        seq![(0x30 + n) as u8]
    } else {
        dec_digits(n / 10).push((0x30 + n % 10) as u8)
    }
}

/// The decimal digits of `n`, most significant first, as characters.
pub open spec fn dec_chars(n: nat) -> Seq<char> {
    dec_digits(n).map_values(|b: u8| b as char)
}

/// Every decimal digit byte is an ASCII digit.
pub proof fn lemma_dec_digits_ascii(n: nat)
    ensures
        dec_digits(n).len() >= 1,
        forall|i: int|
            0 <= i < dec_digits(n).len() ==> 0x30 <= #[trigger] dec_digits(n)[i] <= 0x39,
    decreases n,
{
    if n < 10 {
    } else {
        lemma_dec_digits_ascii(n / 10);
        assert forall|i: int|
            0 <= i < dec_digits(n).len() implies 0x30 <= #[trigger] dec_digits(n)[i] <= 0x39 by {
            if i < dec_digits(n).len() - 1 {
                assert(dec_digits(n)[i] == dec_digits(n / 10)[i]);
            }
        }
    }
}

/// Appends the decimal digits of `n` to `out`.
fn push_dec_digits(n: u64, out: &mut Vec<u8>)
    ensures
        final(out)@ == old(out)@ + dec_digits(n as nat),
    decreases n,
{
    if n < 10 {
        out.push(0x30 + (n as u8));
        proof {
            assert(out@ =~= old(out)@ + dec_digits(n as nat));
        }
    } else {
        push_dec_digits(n / 10, out);
        out.push(0x30 + ((n % 10) as u8));
        proof {
            assert(out@ =~= old(out)@ + dec_digits(n as nat));
        }
    }
}

/// The decimal rendering of `n`.
pub fn u64_to_decimal(n: u64) -> (r: String)
    ensures
        r@ == dec_chars(n as nat),
{
    let mut bytes: Vec<u8> = Vec::new();
    push_dec_digits(n, &mut bytes);
    proof {
        lemma_dec_digits_ascii(n as nat);
        assert(bytes@ =~= dec_digits(n as nat));
    }
    let r = bytes_to_text(&bytes);
    proof {
        assert(r@ =~= dec_chars(n as nat));
    }
    r
}

/// The id of a profile record: the file stem, an underscore, and the profile
/// index in decimal.
pub open spec fn profile_id_view(stem: Seq<char>, index: nat) -> Seq<char> {
    stem + seq!['_'] + dec_chars(index)
}

/// Builds the id `{file_stem}_{profile_index}`.
pub fn profile_record_id(stem: &String, index: u64) -> (r: String)
    ensures
        r@ == profile_id_view(stem@, index as nat),
{
    let mut r = stem.clone();
    r.append("_");
    let digits = u64_to_decimal(index);
    r.append(digits.as_str());
    proof {
        reveal_strlit("_");
        assert(r@ =~= profile_id_view(stem@, index as nat));
    }
    r
}

/// The id of a metadata record: the platform number, the marker `_m`, and
/// the per-platform sequence number in decimal.
pub open spec fn metadata_id_view(platform: Seq<char>, seqno: nat) -> Seq<char> {
    platform + seq!['_', 'm'] + dec_chars(seqno)
}

/// Builds the id `{platform_number}_m{sequence}`.
pub fn metadata_record_id(platform: &String, seqno: u64) -> (r: String)
    ensures
        r@ == metadata_id_view(platform@, seqno as nat),
{
    let mut r = platform.clone();
    r.append("_m");
    let digits = u64_to_decimal(seqno);
    r.append(digits.as_str());
    proof {
        reveal_strlit("_m");
        assert(r@ =~= metadata_id_view(platform@, seqno as nat));
    }
    r
}

/// The descriptive platform/float attributes of a profile, factored out of
/// the per-profile records and deduplicated across one run.
pub struct MetadataRecord {
    pub platform_number: String,
    pub data_type: String,
    pub format_version: String,
    pub handbook_version: String,
    pub reference_date_time: String,
    pub project_name: String,
    pub pi_name: Vec<String>,
    pub data_centre: String,
    pub platform_type: String,
    pub float_serial_no: String,
    pub firmware_version: String,
    pub wmo_inst_type: String,
    pub positioning_system: String,
}

/// The mathematical model of a metadata record: each field as character
/// sequences.
pub struct MetadataModel {
    pub platform_number: Seq<char>,
    pub data_type: Seq<char>,
    pub format_version: Seq<char>,
    pub handbook_version: Seq<char>,
    pub reference_date_time: Seq<char>,
    pub project_name: Seq<char>,
    pub pi_name: Seq<Seq<char>>,
    pub data_centre: Seq<char>,
    pub platform_type: Seq<char>,
    pub float_serial_no: Seq<char>,
    pub firmware_version: Seq<char>,
    pub wmo_inst_type: Seq<char>,
    pub positioning_system: Seq<char>,
}

impl MetadataRecord {
    pub open spec fn model(&self) -> MetadataModel {
        MetadataModel {
            platform_number: self.platform_number@,
            data_type: self.data_type@,
            format_version: self.format_version@,
            handbook_version: self.handbook_version@,
            reference_date_time: self.reference_date_time@,
            project_name: self.project_name@,
            pi_name: Seq::new(self.pi_name@.len(), |i: int| self.pi_name@[i]@),
            data_centre: self.data_centre@,
            platform_type: self.platform_type@,
            float_serial_no: self.float_serial_no@,
            firmware_version: self.firmware_version@,
            wmo_inst_type: self.wmo_inst_type@,
            positioning_system: self.positioning_system@,
        }
    }
}

/// Field-by-field equality of two records.
fn same_fields(a: &MetadataRecord, b: &MetadataRecord) -> (r: bool)
    ensures
        r == (a.model() == b.model()),
{
    if !(a.platform_number.eq(&b.platform_number) && a.data_type.eq(&b.data_type)
        && a.format_version.eq(&b.format_version) && a.handbook_version.eq(&b.handbook_version)
        && a.reference_date_time.eq(&b.reference_date_time) && a.project_name.eq(&b.project_name)
        && a.data_centre.eq(&b.data_centre) && a.platform_type.eq(&b.platform_type)
        && a.float_serial_no.eq(&b.float_serial_no) && a.firmware_version.eq(&b.firmware_version)
        && a.wmo_inst_type.eq(&b.wmo_inst_type) && a.positioning_system.eq(
        &b.positioning_system,
    )) {
        return false;
    }
    if a.pi_name.len() != b.pi_name.len() {
        proof {
            assert(a.model().pi_name.len() != b.model().pi_name.len());
        }
        return false;
    }
    let n = a.pi_name.len();
    let mut i: usize = 0;
    while i < n
        invariant
            0 <= i <= n,
            n == a.pi_name@.len() == b.pi_name@.len(),
            forall|j: int| 0 <= j < i ==> a.pi_name@[j]@ == b.pi_name@[j]@,
        decreases n - i,
    {
        if !a.pi_name[i].eq(&b.pi_name[i]) {
            proof {
                assert(a.model().pi_name[i as int] != b.model().pi_name[i as int]);
            }
            return false;
        }
        i = i + 1;
    }
    proof {
        assert(a.model().pi_name =~= b.model().pi_name);
    }
    true
}

/// The model of the registry: assigned id and record model of each entry, in
/// the order they were registered.
pub open spec fn registry_model(e: Seq<(String, MetadataRecord)>) -> Seq<(Seq<char>, MetadataModel)> {
    Seq::new(e.len(), |i: int| (e[i].0@, e[i].1.model()))
}

/// Index of the first registered record structurally equal to the candidate,
/// or the registry's length when none matches.
pub open spec fn find_match(m: Seq<(Seq<char>, MetadataModel)>, c: MetadataModel) -> int
    decreases m.len(),
{
    if m.len() == 0 {
        0
    } else if m[0].1 == c {
        0
    } else {
        1 + find_match(m.drop_first(), c)
    }
}

/// `find_match` returns the index of the first match, or the length.
pub proof fn lemma_find_match(m: Seq<(Seq<char>, MetadataModel)>, c: MetadataModel)
    ensures
        0 <= find_match(m, c) <= m.len(),
        find_match(m, c) < m.len() ==> m[find_match(m, c)].1 == c,
        forall|j: int| 0 <= j < find_match(m, c) ==> (#[trigger] m[j]).1 != c,
    decreases m.len(),
{
    if m.len() == 0 || m[0].1 == c {
    } else {
        lemma_find_match(m.drop_first(), c);
        assert forall|j: int| 0 <= j < find_match(m, c) implies (#[trigger] m[j]).1 != c by {
            if j > 0 {
                assert(m[j] == m.drop_first()[j - 1]);
            }
        }
    }
}

/// How many registered records carry this platform number.
pub open spec fn platform_count(m: Seq<(Seq<char>, MetadataModel)>, p: Seq<char>) -> nat
    decreases m.len(),
{
    if m.len() == 0 {
        0
    } else if m.last().1.platform_number == p {
        platform_count(m.drop_last(), p) + 1
    } else {
        platform_count(m.drop_last(), p)
    }
}

/// What resolving a candidate does to the registry: the id of the first
/// structurally equal record if one is registered, else a fresh id
/// `{platform_number}_m{count of records already registered for this
/// platform}` under which the candidate is appended.
pub open spec fn resolve_spec(m: Seq<(Seq<char>, MetadataModel)>, c: MetadataModel) -> (
    Seq<char>,
    Seq<(Seq<char>, MetadataModel)>,
) {
    let f = find_match(m, c);
    if f < m.len() {
        (m[f].0, m)
    } else {
        let id = metadata_id_view(c.platform_number, platform_count(m, c.platform_number));
        (id, m.push((id, c)))
    }
}

/// The registry of metadata records already emitted in the current run.
/// It lives for one run only; it is never persisted or loaded across runs.
pub struct MetadataRegistry {
    pub entries: Vec<(String, MetadataRecord)>,
}

impl MetadataRegistry {
    /// An empty registry, for the start of a run.
    pub fn new() -> (r: MetadataRegistry)
        ensures
            r.entries@.len() == 0,
    {
        MetadataRegistry { entries: Vec::new() }
    }

    /// Resolves a candidate record to its metadata id, registering it first
    /// if no structurally equal record is registered yet.
    pub fn resolve(&mut self, candidate: MetadataRecord) -> (id: String)
        ensures
            id@ == resolve_spec(registry_model(old(self).entries@), candidate.model()).0,
            registry_model(final(self).entries@) == resolve_spec(
                registry_model(old(self).entries@),
                candidate.model(),
            ).1,
    {
        let ghost m = registry_model(self.entries@);
        let ghost c = candidate.model();
        proof {
            lemma_find_match(m, c);
        }
        let n = self.entries.len();
        let mut i: usize = 0;
        while i < n
            invariant
                0 <= i <= n,
                n == self.entries@.len(),
                m == registry_model(self.entries@),
                c == candidate.model(),
                forall|j: int| 0 <= j < i ==> (#[trigger] m[j]).1 != c,
            decreases n - i,
        {
            if same_fields(&self.entries[i].1, &candidate) {
                proof {
                    assert(m[i as int].1 == c);
                    assert(find_match(m, c) == i) by {
                        lemma_find_match(m, c);
                        if find_match(m, c) < i {
                            assert(m[find_match(m, c)].1 == c);
                        }
                        if find_match(m, c) > i {
                            assert(m[i as int].1 != c);
                        }
                    }
                }
                return self.entries[i].0.clone();
            }
            i = i + 1;
        }
        proof {
            assert(find_match(m, c) == m.len()) by {
                lemma_find_match(m, c);
                if find_match(m, c) < m.len() {
                    assert(m[find_match(m, c)].1 == c);
                }
            }
        }
        let mut cnt: u64 = 0;
        let mut j: usize = 0;
        proof {
            assert(m.take(0) =~= Seq::empty());
        }
        while j < n
            invariant
                0 <= j <= n,
                n == self.entries@.len(),
                m == registry_model(self.entries@),
                c == candidate.model(),
                cnt <= j,
                cnt == platform_count(m.take(j as int), c.platform_number),
            decreases n - j,
        {
            let ghost before = m.take(j as int);
            let ghost after = m.take(j + 1 as int);
            proof {
                assert(after.drop_last() =~= before);
                assert(after.last() == m[j as int]);
            }
            if self.entries[j].1.platform_number.eq(&candidate.platform_number) {
                cnt = cnt + 1;
            }
            j = j + 1;
        }
        proof {
            assert(m.take(n as int) =~= m);
        }
        let id = metadata_record_id(&candidate.platform_number, cnt);
        let ghost entries0 = self.entries@;
        self.entries.push((id.clone(), candidate));
        proof {
            assert forall|k: int|
                0 <= k < registry_model(self.entries@).len() implies registry_model(
                self.entries@,
            )[k] == m.push((id@, c))[k] by {
                if k < entries0.len() {
                    assert(self.entries@[k] == entries0[k]);
                    assert(registry_model(entries0)[k] == m[k]);
                } else {
                    assert(self.entries@[k] == (id, candidate));
                }
            }
            assert(registry_model(self.entries@) =~= m.push((id@, c)));
        }
        id
    }
}

/// A registry in which every id was assigned by this run's rule: entry `i`
/// carries `{platform}_m{k}` where `k` counts the earlier entries of the same
/// platform.
pub open spec fn registry_wf(m: Seq<(Seq<char>, MetadataModel)>) -> bool {
    forall|i: int|
        0 <= i < m.len() ==> (#[trigger] m[i]).0 == metadata_id_view(
            m[i].1.platform_number,
            platform_count(m.take(i), m[i].1.platform_number),
        )
}

/// Resolving preserves the id-assignment discipline.
pub proof fn lemma_resolve_preserves_wf(m: Seq<(Seq<char>, MetadataModel)>, c: MetadataModel)
    requires
        registry_wf(m),
    ensures
        registry_wf(resolve_spec(m, c).1),
{
    let f = find_match(m, c);
    if f < m.len() {
    } else {
        let id = metadata_id_view(c.platform_number, platform_count(m, c.platform_number));
        let m2 = m.push((id, c));
        assert forall|i: int| 0 <= i < m2.len() implies (#[trigger] m2[i]).0 == metadata_id_view(
            m2[i].1.platform_number,
            platform_count(m2.take(i), m2[i].1.platform_number),
        ) by {
            assert(m2.take(i) =~= m.take(i));
            if i < m.len() {
                assert(m2[i] == m[i]);
            } else {
                assert(m2[i] == (id, c));
                assert(m.take(i) =~= m);
            }
        }
    }
}

/// In a disciplined registry, entries for distinct platform numbers never
/// share an id, even if all other fields match.
pub proof fn lemma_registry_distinct_platforms(m: Seq<(Seq<char>, MetadataModel)>)
    requires
        registry_wf(m),
    ensures
        forall|i: int, j: int|
            0 <= i < m.len() && 0 <= j < m.len() && (#[trigger] m[i]).1.platform_number != (
            #[trigger] m[j]).1.platform_number ==> m[i].0 != m[j].0,
{
    assert forall|i: int, j: int|
        0 <= i < m.len() && 0 <= j < m.len() && (#[trigger] m[i]).1.platform_number != (
        #[trigger] m[j]).1.platform_number implies m[i].0 != m[j].0 by {
        lemma_metadata_ids_distinct(
            m[i].1.platform_number,
            platform_count(m.take(i), m[i].1.platform_number),
            m[j].1.platform_number,
            platform_count(m.take(j), m[j].1.platform_number),
        );
    }
}

/// Resolving the same descriptive fields twice in one run yields the same
/// id, and the second resolution leaves the registry unchanged.
pub proof fn lemma_resolve_stable(m: Seq<(Seq<char>, MetadataModel)>, c: MetadataModel)
    ensures
        resolve_spec(resolve_spec(m, c).1, c).0 == resolve_spec(m, c).0,
        resolve_spec(resolve_spec(m, c).1, c).1 == resolve_spec(m, c).1,
{
    lemma_find_match(m, c);
    let f = find_match(m, c);
    if f < m.len() {
    } else {
        let id = metadata_id_view(c.platform_number, platform_count(m, c.platform_number));
        let m2 = m.push((id, c));
        lemma_find_match(m2, c);
        let f2 = find_match(m2, c);
        assert(m2[m.len() as int].1 == c);
        assert(f2 <= m.len());
        if f2 < m.len() {
            assert(m2[f2] == m[f2]);
        }
        assert(f2 == m.len());
    }
}

/// Distinct platform numbers never share a metadata id, whatever their
/// sequence numbers: in `{platform}_m{sequence}` the digits after the final
/// `_m` marker contain neither an underscore nor a letter, so the platform
/// part of an id is unambiguous.
pub proof fn lemma_metadata_ids_distinct(p1: Seq<char>, n1: nat, p2: Seq<char>, n2: nat)
    requires
        p1 != p2,
    ensures
        metadata_id_view(p1, n1) != metadata_id_view(p2, n2),
{
    let s1 = metadata_id_view(p1, n1);
    let s2 = metadata_id_view(p2, n2);
    lemma_dec_digits_ascii(n1);
    lemma_dec_digits_ascii(n2);
    if s1 == s2 {
        if p1.len() == p2.len() {
            assert(p1 =~= p2) by {
                assert(forall|i: int| 0 <= i < p1.len() ==> p1[i] == s1[i] && p2[i] == s2[i]);
            }
        } else if p1.len() < p2.len() {
            lemma_id_shorter_platform_distinct(p1, n1, p2, n2);
        } else {
            lemma_id_shorter_platform_distinct(p2, n2, p1, n1);
        }
        assert(false);
    }
}

/// Two ids whose platform parts have different lengths differ: the longer
/// platform would place a digit of the shorter id's decimal tail where its
/// own `_m` marker stands.
proof fn lemma_id_shorter_platform_distinct(p1: Seq<char>, n1: nat, p2: Seq<char>, n2: nat)
    requires
        p1.len() < p2.len(),
    ensures
        metadata_id_view(p1, n1) != metadata_id_view(p2, n2),
{
    let s = metadata_id_view(p1, n1);
    let l1 = p1.len() as int;
    let l2 = p2.len() as int;
    lemma_dec_digits_ascii(n1);
    lemma_dec_digits_ascii(n2);
    if s == metadata_id_view(p2, n2) {
        assert(s.len() == l1 + 2 + dec_chars(n1).len());
        assert(metadata_id_view(p2, n2).len() == l2 + 2 + dec_chars(n2).len());
        assert(s[l2] == '_') by {
            assert(metadata_id_view(p2, n2)[l2] == '_');
        }
        if l2 == l1 + 1 {
            assert(s[l1 + 1] == 'm');
        } else {
            assert(l1 + 2 <= l2 < s.len());
            assert(s[l2] == dec_chars(n1)[l2 - l1 - 2]);
            assert(dec_digits(n1)[l2 - l1 - 2] as char == s[l2]);
            assert(0x30 <= dec_digits(n1)[l2 - l1 - 2] <= 0x39);
        }
        assert(false);
    }
}

} // verus!
