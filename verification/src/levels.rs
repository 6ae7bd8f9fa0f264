use vstd::prelude::*;

verus! {

/// The IEEE 754 bit pattern of the numeric fill sentinel 99999.0, the
/// reserved per-level "no data" marker. Carrying per-level readings as bit
/// patterns makes the fill test exact: the sentinel is neither a zero nor a
/// not-a-number, so two readings compare equal as floating-point numbers
/// exactly when their bit patterns are equal.
pub const FILL_VALUE_BITS: u64 = 0x40F869F000000000;

/// The larger of two lengths.
pub open spec fn nat_max(a: nat, b: nat) -> nat {
    if a >= b {
        a
    } else {
        b
    }
}

/// A per-level numeric array without its trailing run of fill sentinels; an
/// array of fills alone truncates to empty.
pub open spec fn trunc_num(s: Seq<u64>) -> Seq<u64>
    decreases s.len(),
{
    if s.len() > 0 && s.last() == FILL_VALUE_BITS {
        trunc_num(s.drop_last())
    } else {
        s
    }
}

/// A per-level QC text array without its trailing run of empty strings.
pub open spec fn trunc_qc(s: Seq<Seq<char>>) -> Seq<Seq<char>>
    decreases s.len(),
{
    if s.len() > 0 && s.last().len() == 0 {
        trunc_qc(s.drop_last())
    } else {
        s
    }
}

/// A numeric array re-padded with the fill sentinel up to length `m` (an
/// array already at least that long is kept as it is).
pub open spec fn pad_num(s: Seq<u64>, m: nat) -> Seq<u64> {
    if s.len() >= m {
        s
    } else {
        s + Seq::new((m - s.len()) as nat, |i: int| FILL_VALUE_BITS)
    }
}

/// A QC array re-padded with empty strings up to length `m`.
pub open spec fn pad_qc(s: Seq<Seq<char>>, m: nat) -> Seq<Seq<char>> {
    if s.len() >= m {
        s
    } else {
        s + Seq::new((m - s.len()) as nat, |i: int| Seq::<char>::empty())
    }
}

/// The model of a parameter table of numeric arrays: name and contents of
/// each entry, in order.
pub open spec fn num_model(t: Seq<(String, Vec<u64>)>) -> Seq<(Seq<char>, Seq<u64>)> {
    Seq::new(t.len(), |i: int| (t[i].0@, t[i].1@))
}

/// The model of a parameter table of QC text arrays.
pub open spec fn qc_model(t: Seq<(String, Vec<String>)>) -> Seq<(Seq<char>, Seq<Seq<char>>)> {
    Seq::new(t.len(), |i: int| (t[i].0@, Seq::new(t[i].1@.len(), |j: int| t[i].1@[j]@)))
}

/// Every entry of the table with its array truncated of trailing fills.
pub open spec fn trunc_num_table(t: Seq<(Seq<char>, Seq<u64>)>) -> Seq<(Seq<char>, Seq<u64>)> {
    Seq::new(t.len(), |i: int| (t[i].0, trunc_num(t[i].1)))
}

/// Every entry of the QC table with its array truncated of trailing empties.
pub open spec fn trunc_qc_table(t: Seq<(Seq<char>, Seq<Seq<char>>)>) -> Seq<
    (Seq<char>, Seq<Seq<char>>),
> {
    Seq::new(t.len(), |i: int| (t[i].0, trunc_qc(t[i].1)))
}

/// The longest array in a numeric table.
pub open spec fn max_len_num(t: Seq<(Seq<char>, Seq<u64>)>) -> nat
    decreases t.len(),
{
    if t.len() == 0 {
        0
    } else {
        nat_max(max_len_num(t.drop_last()), t.last().1.len())
    }
}

/// The longest array in a QC table.
pub open spec fn max_len_qc(t: Seq<(Seq<char>, Seq<Seq<char>>)>) -> nat
    decreases t.len(),
{
    if t.len() == 0 {
        0
    } else {
        nat_max(max_len_qc(t.drop_last()), t.last().1.len())
    }
}

/// The entries of a truncated numeric table whose arrays retained anything,
/// each re-padded to length `m`, in their original order.
pub open spec fn keep_pad_num(t: Seq<(Seq<char>, Seq<u64>)>, m: nat) -> Seq<(Seq<char>, Seq<u64>)>
    decreases t.len(),
{
    if t.len() == 0 {
        Seq::empty()
    } else if t.last().1.len() > 0 {
        keep_pad_num(t.drop_last(), m) + seq![(t.last().0, pad_num(t.last().1, m))]
    } else {
        keep_pad_num(t.drop_last(), m)
    }
}

/// The entries of a truncated QC table whose arrays retained anything, each
/// re-padded to length `m`, in their original order.
pub open spec fn keep_pad_qc(t: Seq<(Seq<char>, Seq<Seq<char>>)>, m: nat) -> Seq<
    (Seq<char>, Seq<Seq<char>>),
>
    decreases t.len(),
{
    if t.len() == 0 {
        Seq::empty()
    } else if t.last().1.len() > 0 {
        keep_pad_qc(t.drop_last(), m) + seq![(t.last().0, pad_qc(t.last().1, m))]
    } else {
        keep_pad_qc(t.drop_last(), m)
    }
}

/// The shared maximum retained length over the four tables of one profile.
pub open spec fn level_max(
    rt: Seq<(Seq<char>, Seq<u64>)>,
    adj: Seq<(Seq<char>, Seq<u64>)>,
    qc: Seq<(Seq<char>, Seq<Seq<char>>)>,
    aqc: Seq<(Seq<char>, Seq<Seq<char>>)>,
) -> nat {
    nat_max(
        nat_max(max_len_num(trunc_num_table(rt)), max_len_num(trunc_num_table(adj))),
        nat_max(max_len_qc(trunc_qc_table(qc)), max_len_qc(trunc_qc_table(aqc))),
    )
}

/// What consistency enforcement does to one numeric table under the shared
/// maximum `m`: truncate trailing fill runs, drop entries that retained
/// nothing, re-pad the rest to `m`.
pub open spec fn enforce_num_spec(t: Seq<(Seq<char>, Seq<u64>)>, m: nat) -> Seq<
    (Seq<char>, Seq<u64>),
> {
    keep_pad_num(trunc_num_table(t), m)
}

/// What consistency enforcement does to one QC table.
pub open spec fn enforce_qc_spec(t: Seq<(Seq<char>, Seq<Seq<char>>)>, m: nat) -> Seq<
    (Seq<char>, Seq<Seq<char>>),
> {
    keep_pad_qc(trunc_qc_table(t), m)
}

/// Truncates the trailing run of fill sentinels off a numeric array.
pub fn truncate_trailing_fills(v: &mut Vec<u64>)
    ensures
        final(v)@ == trunc_num(old(v)@),
{
    let ghost orig = v@;
    let mut end = v.len();
    proof {
        assert(orig.take(end as int) =~= orig);
    }
    while end > 0 && v[end - 1] == FILL_VALUE_BITS
        invariant
            0 <= end <= orig.len(),
            v@ == orig,
            trunc_num(orig) == trunc_num(orig.take(end as int)),
        decreases end,
    {
        proof {
            assert(orig.take(end as int).drop_last() =~= orig.take(end - 1 as int));
        }
        end = end - 1;
    }
    proof {
        assert(trunc_num(orig.take(end as int)) == orig.take(end as int));
    }
    v.truncate(end);
    proof {
        assert(v@ =~= orig.take(end as int));
    }
}

/// Truncates the trailing run of empty strings off a QC text array.
pub fn truncate_trailing_empties(v: &mut Vec<String>)
    ensures
        final(v)@.len() == trunc_qc(qc_arr_model(old(v)@)).len(),
        qc_arr_model(final(v)@) == trunc_qc(qc_arr_model(old(v)@)),
{
    let ghost orig = v@;
    let ghost om = qc_arr_model(orig);
    let mut end = v.len();
    proof {
        assert(om.take(end as int) =~= om);
    }
    while end > 0 && v[end - 1].as_str().is_empty()
        invariant
            0 <= end <= orig.len(),
            v@ == orig,
            om == qc_arr_model(orig),
            trunc_qc(om) == trunc_qc(om.take(end as int)),
        decreases end,
    {
        proof {
            assert(om.take(end as int).drop_last() =~= om.take(end - 1 as int));
            assert(om.take(end as int).last() == orig[end - 1]@);
        }
        end = end - 1;
    }
    proof {
        if end > 0 {
            assert(om.take(end as int).last() == orig[end - 1]@);
        }
        assert(trunc_qc(om.take(end as int)) == om.take(end as int));
    }
    v.truncate(end);
    proof {
        assert(qc_arr_model(v@) =~= om.take(end as int));
    }
}

/// The model of one QC array: its strings as character sequences.
pub open spec fn qc_arr_model(s: Seq<String>) -> Seq<Seq<char>> {
    Seq::new(s.len(), |j: int| s[j]@)
}

/// Truncates every numeric array of the table and reports the longest
/// retained length.
fn truncate_num_table(t: Vec<(String, Vec<u64>)>) -> (r: (Vec<(String, Vec<u64>)>, usize))
    ensures
        num_model(r.0@) == trunc_num_table(num_model(t@)),
        r.1 == max_len_num(trunc_num_table(num_model(t@))),
{
    let ghost om = num_model(t@);
    let ghost ot = t@;
    let mut rest = t;
    let mut out: Vec<(String, Vec<u64>)> = Vec::new();
    let mut mx: usize = 0;
    proof {
        assert(trunc_num_table(om.take(0)) =~= Seq::empty());
        assert(num_model(out@) =~= Seq::empty());
    }
    while rest.len() > 0
        invariant
            out@.len() + rest@.len() == ot.len(),
            om == num_model(ot),
            rest@ == ot.skip(out@.len() as int),
            num_model(out@) == trunc_num_table(om.take(out@.len() as int)),
            mx == max_len_num(trunc_num_table(om.take(out@.len() as int))),
        decreases rest@.len(),
    {
        let ghost i = out@.len() as int;
        let (name, mut arr) = rest.remove(0);
        proof {
            assert(ot.skip(i).remove(0) =~= ot.skip(i + 1));
            assert(name == ot[i].0 && arr == ot[i].1);
        }
        truncate_trailing_fills(&mut arr);
        let al = arr.len();
        if al > mx {
            mx = al;
        }
        let ghost out0 = out@;
        let ghost entry = (name, arr);
        out.push((name, arr));
        proof {
            let prev = trunc_num_table(om.take(i));
            let cur = trunc_num_table(om.take(i + 1));
            assert(cur.drop_last() =~= prev);
            assert(cur.last() == (om[i].0, trunc_num(om[i].1)));
            assert(out@ == out0.push(entry));
            assert forall|k: int| 0 <= k < cur.len() implies num_model(out@)[k] == cur[k] by {
                if k < i {
                    assert(num_model(out@)[k] == (out0[k].0@, out0[k].1@));
                    assert(num_model(out0)[k] == (out0[k].0@, out0[k].1@));
                    assert(cur[k] == prev[k]);
                } else {
                    assert(out@[k] == entry);
                    assert(om[k] == (ot[k].0@, ot[k].1@));
                    assert(entry.1@ == trunc_num(om[k].1));
                }
            }
            assert(num_model(out@) =~= cur);
            assert(max_len_num(cur) == nat_max(max_len_num(prev), cur.last().1.len()));
        }
    }
    proof {
        assert(om.take(out@.len() as int) =~= om);
    }
    (out, mx)
}

/// Truncates every QC array of the table and reports the longest retained
/// length.
fn truncate_qc_table(t: Vec<(String, Vec<String>)>) -> (r: (Vec<(String, Vec<String>)>, usize))
    ensures
        qc_model(r.0@) == trunc_qc_table(qc_model(t@)),
        r.1 == max_len_qc(trunc_qc_table(qc_model(t@))),
{
    let ghost om = qc_model(t@);
    let ghost ot = t@;
    let mut rest = t;
    let mut out: Vec<(String, Vec<String>)> = Vec::new();
    let mut mx: usize = 0;
    proof {
        assert(trunc_qc_table(om.take(0)) =~= Seq::empty());
        assert(qc_model(out@) =~= Seq::empty());
    }
    while rest.len() > 0
        invariant
            out@.len() + rest@.len() == ot.len(),
            om == qc_model(ot),
            rest@ == ot.skip(out@.len() as int),
            qc_model(out@) == trunc_qc_table(om.take(out@.len() as int)),
            mx == max_len_qc(trunc_qc_table(om.take(out@.len() as int))),
        decreases rest@.len(),
    {
        let ghost i = out@.len() as int;
        let (name, mut arr) = rest.remove(0);
        proof {
            assert(ot.skip(i).remove(0) =~= ot.skip(i + 1));
            assert(name == ot[i].0 && arr == ot[i].1);
            assert(qc_arr_model(arr@) =~= om[i].1);
        }
        truncate_trailing_empties(&mut arr);
        let al = arr.len();
        if al > mx {
            mx = al;
        }
        let ghost out0 = out@;
        let ghost entry = (name, arr);
        out.push((name, arr));
        proof {
            let prev = trunc_qc_table(om.take(i));
            let cur = trunc_qc_table(om.take(i + 1));
            assert(cur.drop_last() =~= prev);
            assert(cur.last() == (om[i].0, trunc_qc(om[i].1)));
            assert(out@ == out0.push(entry));
            assert forall|k: int| 0 <= k < cur.len() implies qc_model(out@)[k] == cur[k] by {
                if k < i {
                    assert(qc_model(out@)[k] == qc_model(out0)[k]);
                    assert(cur[k] == prev[k]);
                } else {
                    assert(out@[k] == entry);
                    assert(om[k] == qc_model(ot)[k]);
                    assert(qc_model(out@)[k] == (entry.0@, qc_arr_model(entry.1@)));
                    assert(qc_arr_model(entry.1@) == trunc_qc(om[k].1));
                }
            }
            assert(qc_model(out@) =~= cur);
            assert(max_len_qc(cur) == nat_max(max_len_qc(prev), cur.last().1.len()));
        }
    }
    proof {
        assert(om.take(out@.len() as int) =~= om);
    }
    (out, mx)
}

/// Re-pads every retained, non-empty numeric array of an already-truncated
/// table to length `m`, dropping entries that retained nothing.
fn pad_num_table(t: Vec<(String, Vec<u64>)>, m: usize) -> (r: Vec<(String, Vec<u64>)>)
    ensures
        num_model(r@) == keep_pad_num(num_model(t@), m as nat),
{
    let ghost om = num_model(t@);
    let ghost ot = t@;
    let mut rest = t;
    let mut out: Vec<(String, Vec<u64>)> = Vec::new();
    let ghost mut done: int = 0;
    proof {
        assert(keep_pad_num(om.take(0), m as nat) =~= Seq::empty());
        assert(num_model(out@) =~= Seq::empty());
    }
    while rest.len() > 0
        invariant
            0 <= done <= ot.len(),
            done + rest@.len() == ot.len(),
            om == num_model(ot),
            rest@ == ot.skip(done),
            num_model(out@) == keep_pad_num(om.take(done), m as nat),
        decreases rest@.len(),
    {
        let ghost i = done;
        let (name, mut arr) = rest.remove(0);
        proof {
            assert(ot.skip(i).remove(0) =~= ot.skip(i + 1));
            assert(name == ot[i].0 && arr == ot[i].1);
        }
        let ghost prev_out = num_model(out@);
        if arr.len() > 0 {
            let ghost arr0 = arr@;
            let start = arr.len();
            while arr.len() < m
                invariant
                    arr@.len() >= start,
                    arr@.len() <= m || arr@.len() == start,
                    arr@.subrange(0, start as int) == arr0,
                    start == arr0.len(),
                    forall|j: int| start <= j < arr@.len() ==> arr@[j] == FILL_VALUE_BITS,
                decreases m - arr@.len(),
            {
                let ghost before = arr@;
                arr.push(FILL_VALUE_BITS);
                proof {
                    assert(arr@.subrange(0, start as int) =~= before.subrange(0, start as int));
                }
            }
            proof {
                assert(arr@ =~= pad_num(arr0, m as nat));
            }
            out.push((name, arr));
            proof {
                assert(keep_pad_num(om.take(i + 1), m as nat) =~= prev_out + seq![
                    (om[i].0, pad_num(om[i].1, m as nat)),
                ]) by {
                    assert(om.take(i + 1).drop_last() =~= om.take(i));
                    assert(om.take(i + 1).last() == om[i]);
                }
                assert(num_model(out@) =~= keep_pad_num(om.take(i + 1), m as nat));
            }
        } else {
            proof {
                assert(keep_pad_num(om.take(i + 1), m as nat) =~= prev_out) by {
                    assert(om.take(i + 1).drop_last() =~= om.take(i));
                    assert(om.take(i + 1).last() == om[i]);
                }
            }
        }
        proof {
            done = done + 1;
        }
    }
    proof {
        assert(om.take(done) =~= om);
    }
    out
}

/// Re-pads every retained, non-empty QC array of an already-truncated table
/// to length `m`, dropping entries that retained nothing.
fn pad_qc_table(t: Vec<(String, Vec<String>)>, m: usize) -> (r: Vec<(String, Vec<String>)>)
    ensures
        qc_model(r@) == keep_pad_qc(qc_model(t@), m as nat),
{
    let ghost om = qc_model(t@);
    let ghost ot = t@;
    let mut rest = t;
    let mut out: Vec<(String, Vec<String>)> = Vec::new();
    let ghost mut done: int = 0;
    proof {
        assert(keep_pad_qc(om.take(0), m as nat) =~= Seq::empty());
        assert(qc_model(out@) =~= Seq::empty());
    }
    while rest.len() > 0
        invariant
            0 <= done <= ot.len(),
            done + rest@.len() == ot.len(),
            om == qc_model(ot),
            rest@ == ot.skip(done),
            qc_model(out@) == keep_pad_qc(om.take(done), m as nat),
        decreases rest@.len(),
    {
        let ghost i = done;
        let (name, mut arr) = rest.remove(0);
        proof {
            assert(ot.skip(i).remove(0) =~= ot.skip(i + 1));
            assert(name == ot[i].0 && arr == ot[i].1);
            assert(qc_arr_model(arr@) =~= om[i].1);
        }
        let ghost prev_out = qc_model(out@);
        if arr.len() > 0 {
            let ghost arr0 = qc_arr_model(arr@);
            let start = arr.len();
            while arr.len() < m
                invariant
                    arr@.len() >= start,
                    arr@.len() <= m || arr@.len() == start,
                    qc_arr_model(arr@).subrange(0, start as int) == arr0,
                    start == arr0.len(),
                    forall|j: int|
                        start <= j < arr@.len() ==> (#[trigger] arr@[j])@ =~= Seq::<char>::empty(),
                decreases m - arr@.len(),
            {
                let ghost before = arr@;
                arr.push(String::new());
                proof {
                    assert(qc_arr_model(arr@).subrange(0, start as int) =~= qc_arr_model(
                        before,
                    ).subrange(0, start as int));
                }
            }
            proof {
                assert(qc_arr_model(arr@) =~= pad_qc(arr0, m as nat));
            }
            out.push((name, arr));
            proof {
                assert(keep_pad_qc(om.take(i + 1), m as nat) =~= prev_out + seq![
                    (om[i].0, pad_qc(om[i].1, m as nat)),
                ]) by {
                    assert(om.take(i + 1).drop_last() =~= om.take(i));
                    assert(om.take(i + 1).last() == om[i]);
                }
                assert(qc_model(out@) =~= keep_pad_qc(om.take(i + 1), m as nat));
            }
        } else {
            proof {
                assert(om[i].1.len() == 0);
                assert(keep_pad_qc(om.take(i + 1), m as nat) =~= prev_out) by {
                    assert(om.take(i + 1).drop_last() =~= om.take(i));
                    assert(om.take(i + 1).last() == om[i]);
                }
            }
        }
        proof {
            done = done + 1;
        }
    }
    proof {
        assert(om.take(done) =~= om);
    }
    out
}

/// Enforces length consistency across the four per-level tables of one
/// profile: every array is truncated of its trailing fill run, parameters
/// that retained nothing are dropped, and every remaining array is re-padded
/// to the shared maximum retained length, so that one level index addresses
/// corresponding readings in every table.
pub fn enforce_level_consistency(
    realtime: Vec<(String, Vec<u64>)>,
    adjusted: Vec<(String, Vec<u64>)>,
    qc: Vec<(String, Vec<String>)>,
    adjusted_qc: Vec<(String, Vec<String>)>,
) -> (r: (Vec<(String, Vec<u64>)>, Vec<(String, Vec<u64>)>, Vec<(String, Vec<String>)>, Vec<
    (String, Vec<String>)>))
    ensures
        num_model(r.0@) == enforce_num_spec(
            num_model(realtime@),
            level_max(num_model(realtime@), num_model(adjusted@), qc_model(qc@), qc_model(adjusted_qc@)),
        ),
        num_model(r.1@) == enforce_num_spec(
            num_model(adjusted@),
            level_max(num_model(realtime@), num_model(adjusted@), qc_model(qc@), qc_model(adjusted_qc@)),
        ),
        qc_model(r.2@) == enforce_qc_spec(
            qc_model(qc@),
            level_max(num_model(realtime@), num_model(adjusted@), qc_model(qc@), qc_model(adjusted_qc@)),
        ),
        qc_model(r.3@) == enforce_qc_spec(
            qc_model(adjusted_qc@),
            level_max(num_model(realtime@), num_model(adjusted@), qc_model(qc@), qc_model(adjusted_qc@)),
        ),
{
    let (t1, m1) = truncate_num_table(realtime);
    let (t2, m2) = truncate_num_table(adjusted);
    let (t3, m3) = truncate_qc_table(qc);
    let (t4, m4) = truncate_qc_table(adjusted_qc);
    let mut m = m1;
    if m2 > m {
        m = m2;
    }
    if m3 > m {
        m = m3;
    }
    if m4 > m {
        m = m4;
    }
    let r1 = pad_num_table(t1, m);
    let r2 = pad_num_table(t2, m);
    let r3 = pad_qc_table(t3, m);
    let r4 = pad_qc_table(t4, m);
    (r1, r2, r3, r4)
}

/// No array outgrows the longest one of its table.
proof fn lemma_max_len_num_bound(t: Seq<(Seq<char>, Seq<u64>)>, j: int)
    requires
        0 <= j < t.len(),
    ensures
        t[j].1.len() <= max_len_num(t),
    decreases t.len(),
{
    if j < t.len() - 1 {
        lemma_max_len_num_bound(t.drop_last(), j);
    }
}

/// No QC array outgrows the longest one of its table.
proof fn lemma_max_len_qc_bound(t: Seq<(Seq<char>, Seq<Seq<char>>)>, j: int)
    requires
        0 <= j < t.len(),
    ensures
        t[j].1.len() <= max_len_qc(t),
    decreases t.len(),
{
    if j < t.len() - 1 {
        lemma_max_len_qc_bound(t.drop_last(), j);
    }
}

/// Padding a truncated table whose longest array fits under `m` leaves every
/// retained array at exactly length `m`.
proof fn lemma_keep_pad_num_uniform(t: Seq<(Seq<char>, Seq<u64>)>, m: nat)
    requires
        max_len_num(t) <= m,
    ensures
        forall|j: int|
            0 <= j < keep_pad_num(t, m).len() ==> (#[trigger] keep_pad_num(t, m)[j]).1.len() == m,
    decreases t.len(),
{
    if t.len() > 0 {
        lemma_keep_pad_num_uniform(t.drop_last(), m);
        if t.last().1.len() > 0 {
            assert(keep_pad_num(t, m) == keep_pad_num(t.drop_last(), m) + seq![
                (t.last().0, pad_num(t.last().1, m)),
            ]);
        }
    }
}

/// Padding a truncated QC table whose longest array fits under `m` leaves
/// every retained array at exactly length `m`.
proof fn lemma_keep_pad_qc_uniform(t: Seq<(Seq<char>, Seq<Seq<char>>)>, m: nat)
    requires
        max_len_qc(t) <= m,
    ensures
        forall|j: int|
            0 <= j < keep_pad_qc(t, m).len() ==> (#[trigger] keep_pad_qc(t, m)[j]).1.len() == m,
    decreases t.len(),
{
    if t.len() > 0 {
        lemma_keep_pad_qc_uniform(t.drop_last(), m);
        if t.last().1.len() > 0 {
            assert(keep_pad_qc(t, m) == keep_pad_qc(t.drop_last(), m) + seq![
                (t.last().0, pad_qc(t.last().1, m)),
            ]);
        }
    }
}

/// Enforcement aligns the whole profile: after truncation, removal of empty
/// parameters and re-padding, every array of every one of the four tables
/// has the same length, the maximum retained length across the profile. One
/// parameter's shorter retained run therefore never desynchronizes level
/// indices against its siblings.
pub proof fn lemma_level_arrays_aligned(
    rt: Seq<(Seq<char>, Seq<u64>)>,
    adj: Seq<(Seq<char>, Seq<u64>)>,
    qc: Seq<(Seq<char>, Seq<Seq<char>>)>,
    aqc: Seq<(Seq<char>, Seq<Seq<char>>)>,
)
    ensures
        forall|j: int|
            0 <= j < enforce_num_spec(rt, level_max(rt, adj, qc, aqc)).len() ==> (
            #[trigger] enforce_num_spec(rt, level_max(rt, adj, qc, aqc))[j]).1.len() == level_max(
                rt,
                adj,
                qc,
                aqc,
            ),
        forall|j: int|
            0 <= j < enforce_num_spec(adj, level_max(rt, adj, qc, aqc)).len() ==> (
            #[trigger] enforce_num_spec(adj, level_max(rt, adj, qc, aqc))[j]).1.len() == level_max(
                rt,
                adj,
                qc,
                aqc,
            ),
        forall|j: int|
            0 <= j < enforce_qc_spec(qc, level_max(rt, adj, qc, aqc)).len() ==> (
            #[trigger] enforce_qc_spec(qc, level_max(rt, adj, qc, aqc))[j]).1.len() == level_max(
                rt,
                adj,
                qc,
                aqc,
            ),
        forall|j: int|
            0 <= j < enforce_qc_spec(aqc, level_max(rt, adj, qc, aqc)).len() ==> (
            #[trigger] enforce_qc_spec(aqc, level_max(rt, adj, qc, aqc))[j]).1.len() == level_max(
                rt,
                adj,
                qc,
                aqc,
            ),
{
    let m = level_max(rt, adj, qc, aqc);
    lemma_keep_pad_num_uniform(trunc_num_table(rt), m);
    lemma_keep_pad_num_uniform(trunc_num_table(adj), m);
    lemma_keep_pad_qc_uniform(trunc_qc_table(qc), m);
    lemma_keep_pad_qc_uniform(trunc_qc_table(aqc), m);
}

} // verus!
