//! The state of the schema: which steps it is built from, and which of them a
//! database still lacks.
use crate::text;
use vstd::prelude::*;

verus! {

/// The steps of the schema, in the order in which they build on each other.
pub open spec fn schema_steps() -> Seq<Seq<char>> {
    seq![
        "001_initial"@,
        "002_nullable_trade_order_ids"@,
        "003_symbols"@,
        "004_freeze_price"@,
        "005_klines"@,
        "006_client_order_id"@,
        "007_trades_composite_index"@,
        "008_user_registration_ip"@,
        "009_client_order_id_unique"@,
        "010_api_keys"@,
        "011_drop_trades_order_fk"@,
        "012_account_amount_atoms"@,
        "013_matching_events"@,
        "014_order_trade_amount_atoms"@,
        "015_persist_checkpoints"@,
        "016_api_key_secrets"@,
        "017_audit_log"@,
        "018_drop_legacy_float_accounts"@,
        "019_trade_atomicity_fund_audit"@,
        "020_leader_lease"@,
    ]
}

pub open spec fn step_views(s: Seq<&'static str>) -> Seq<Seq<char>> {
    s.map_values(|v: &'static str| v@)
}

/// All steps of the schema.
pub fn migrations() -> (r: Vec<&'static str>)
    ensures
        step_views(r@) == schema_steps(),
{
    let steps = vec![
        "001_initial",
        "002_nullable_trade_order_ids",
        "003_symbols",
        "004_freeze_price",
        "005_klines",
        "006_client_order_id",
        "007_trades_composite_index",
        "008_user_registration_ip",
        "009_client_order_id_unique",
        "010_api_keys",
        "011_drop_trades_order_fk",
        "012_account_amount_atoms",
        "013_matching_events",
        "014_order_trade_amount_atoms",
        "015_persist_checkpoints",
        "016_api_key_secrets",
        "017_audit_log",
        "018_drop_legacy_float_accounts",
        "019_trade_atomicity_fund_audit",
        "020_leader_lease",
    ];
    proof {
        assert(step_views(steps@) =~= schema_steps());
    }
    steps
}

/// The steps that were not applied yet, in their order.
pub open spec fn unapplied(steps: Seq<Seq<char>>, applied: Seq<Seq<char>>) -> Seq<Seq<char>>
    decreases steps.len(),
{
    if steps.len() == 0 {
        seq![]
    } else {
        let before = unapplied(steps.drop_last(), applied);
        if applied.contains(steps.last()) {
            before
        } else {
            before.push(steps.last())
        }
    }
}

fn is_applied(applied: &Vec<String>, step: &str) -> (r: bool)
    ensures
        r == text::text_views(applied@).contains(step@),
{
    let ghost views = text::text_views(applied@);
    let mut i: usize = 0;
    while i < applied.len()
        invariant
            i <= applied@.len(),
            views == text::text_views(applied@),
            forall|j: int| 0 <= j < i ==> views[j] != step@,
        decreases applied@.len() - i,
    {
        if text::str_eq(applied[i].as_str(), step) {
            assert(views[i as int] == step@);
            return true;
        }
        i = i + 1;
    }
    false
}

/// The steps that a database lacks, by those that it has recorded.
pub fn pending_migrations(applied: &Vec<String>) -> (r: Vec<&'static str>)
    ensures
        step_views(r@) == unapplied(schema_steps(), text::text_views(applied@)),
{
    let steps = migrations();
    let ghost done = text::text_views(applied@);
    let ghost all = schema_steps();
    let mut out: Vec<&'static str> = Vec::new();
    let mut i: usize = 0;
    proof {
        assert(all.take(0) =~= seq![]);
        assert(step_views(out@) =~= unapplied(all.take(0), done));
    }
    while i < steps.len()
        invariant
            i <= steps@.len(),
            all == step_views(steps@),
            done == text::text_views(applied@),
            step_views(out@) == unapplied(all.take(i as int), done),
        decreases steps@.len() - i,
    {
        let ghost before = out@;
        proof {
            assert(all.take(i + 1).drop_last() =~= all.take(i as int));
            assert(all.take(i + 1).last() == steps@[i as int]@);
        }
        if !is_applied(applied, steps[i]) {
            out.push(steps[i]);
            assert(step_views(out@) =~= step_views(before).push(steps@[i as int]@));
        }
        i = i + 1;
    }
    proof {
        assert(all.take(i as int) =~= all);
    }
    out
}

proof fn lemma_unapplied_members(steps: Seq<Seq<char>>, applied: Seq<Seq<char>>, step: Seq<char>)
    ensures
        unapplied(steps, applied).contains(step) <==> steps.contains(step) && !applied.contains(
            step,
        ),
    decreases steps.len(),
{
    if steps.len() > 0 {
        lemma_unapplied_members(steps.drop_last(), applied, step);
        let before = unapplied(steps.drop_last(), applied);
        let last = steps.last();
        assert(steps =~= steps.drop_last().push(last));
        assert(steps.contains(step) <==> steps.drop_last().contains(step) || step == last) by {
            if steps.contains(step) {
                let i = choose|i: int| 0 <= i < steps.len() && steps[i] == step;
                if i < steps.len() - 1 {
                    assert(steps.drop_last()[i] == step);
                }
            }
            if steps.drop_last().contains(step) {
                let i = choose|i: int|
                    0 <= i < steps.drop_last().len() && steps.drop_last()[i] == step;
                assert(steps[i] == step);
            }
            if step == last {
                assert(steps[steps.len() - 1] == step);
            }
        }
        if !applied.contains(last) {
            let after = before.push(last);
            assert(after.contains(step) <==> before.contains(step) || step == last) by {
                if after.contains(step) {
                    let i = choose|i: int| 0 <= i < after.len() && after[i] == step;
                    if i < before.len() {
                        assert(before[i] == step);
                    }
                }
                if before.contains(step) {
                    let i = choose|i: int| 0 <= i < before.len() && before[i] == step;
                    assert(after[i] == step);
                }
                if step == last {
                    assert(after[before.len() as int] == step);
                }
            }
        }
    }
}

/// Once the pending steps were applied and recorded nothing is pending: starting
/// up again changes nothing. A step is pending exactly where it was not recorded.
pub proof fn law_migrations_apply_once(applied: Seq<Seq<char>>)
    ensures
        ({
            let pending = unapplied(schema_steps(), applied);
            unapplied(schema_steps(), applied + pending) =~= seq![]
        }),
        forall|step: Seq<char>| #[trigger]
            unapplied(schema_steps(), applied).contains(step) <==> schema_steps().contains(step)
                && !applied.contains(step),
{
    let steps = schema_steps();
    let pending = unapplied(steps, applied);
    let after = applied + pending;
    assert forall|step: Seq<char>| #[trigger]
        unapplied(steps, applied).contains(step) <==> steps.contains(step) && !applied.contains(
            step,
        ) by {
        lemma_unapplied_members(steps, applied, step);
    }
    let rest = unapplied(steps, after);
    if rest.len() > 0 {
        let step = rest[0];
        assert(rest.contains(step));
        lemma_unapplied_members(steps, after, step);
        lemma_unapplied_members(steps, applied, step);
        if applied.contains(step) {
            let i = choose|i: int| 0 <= i < applied.len() && applied[i] == step;
            assert(after[i] == step);
        } else {
            let i = choose|i: int| 0 <= i < pending.len() && pending[i] == step;
            assert(after[applied.len() + i] == step);
        }
    }
}

/// What is said of a server that does not wait for its log to be written.
pub open spec fn weak_commit(setting: Seq<char>) -> Seq<char> {
    "synchronous_commit must be 'on', server reports '"@ + setting + "'"@
}

/// Whether a server keeps what it has committed, by its reported setting.
pub fn check_durability(setting: &str) -> (r: Result<(), String>)
    ensures
        match r {
            Ok(_) => setting@ == "on"@,
            Err(message) => setting@ != "on"@ && message@ == weak_commit(setting@),
        },
{
    if text::str_eq(setting, "on") {
        Ok(())
    } else {
        let mut message = text::owned("synchronous_commit must be 'on', server reports '");
        message.append(setting);
        message.append("'");
        Err(message)
    }
}

} // verus!
