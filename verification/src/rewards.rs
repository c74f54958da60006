use vstd::prelude::*;

verus! {

/// One immutable entry of an account's reward history: who was credited, how
/// much, and the memo the administrator attached. Once appended to a history
/// it is never changed or removed.
pub struct Reward {
    pub account_id: String,
    pub amount: u128,
    pub memo: String,
}

/// The mathematical content of a [`Reward`].
#[verifier::ext_equal]
pub ghost struct RewardView {
    pub account_id: Seq<char>,
    pub amount: nat,
    pub memo: Seq<char>,
}

impl View for Reward {
    type V = RewardView;

    open spec fn view(&self) -> RewardView {
        RewardView {
            account_id: self.account_id@,
            amount: self.amount as nat,
            memo: self.memo@,
        }
    }
}

impl Reward {
    pub fn new(account_id: String, amount: u128, memo: String) -> (r: Reward)
        ensures
            r@ == (RewardView { account_id: account_id@, amount: amount as nat, memo: memo@ }),
    {
        Reward { account_id, amount, memo }
    }

    pub fn get_account_id(&self) -> (r: String)
        ensures
            r@ == self@.account_id,
    {
        self.account_id.clone()
    }

    pub fn get_amount(&self) -> (r: u128)
        ensures
            r as nat == self@.amount,
    {
        self.amount
    }

    pub fn get_memo(&self) -> (r: String)
        ensures
            r@ == self@.memo,
    {
        self.memo.clone()
    }

    pub fn to_wreward(&self) -> (r: WrappedReward)
        ensures
            r.amount as nat == self@.amount,
            r.memo@ == self@.memo,
    {
        WrappedReward::new(self)
    }
}

/// A reward entry reduced to the two fields a caller of the query surface
/// cares about: the amount and the memo.
pub struct WrappedReward {
    pub amount: u128,
    pub memo: String,
}

impl WrappedReward {
    pub fn new(reward: &Reward) -> (r: WrappedReward)
        ensures
            r.amount as nat == reward@.amount,
            r.memo@ == reward@.memo,
    {
        WrappedReward { amount: reward.get_amount(), memo: reward.get_memo() }
    }
}

/// One account's ledger entry: the append-only event history and the
/// denormalized claimable balance.
pub struct Rewards {
    pub rewards: Vec<Reward>,
    pub amount: u128,
}

/// The mathematical content of a [`Rewards`] entry.
#[verifier::ext_equal]
pub ghost struct RewardsView {
    pub events: Seq<RewardView>,
    pub amount: nat,
}

impl View for Rewards {
    type V = RewardsView;

    open spec fn view(&self) -> RewardsView {
        RewardsView {
            events: self.rewards@.map_values(|r: Reward| r@),
            amount: self.amount as nat,
        }
    }
}

impl Rewards {
    pub fn new() -> (r: Rewards)
        ensures
            r@.events =~= Seq::<RewardView>::empty(),
            r@.amount == 0,
    {
        Rewards { rewards: Vec::new(), amount: 0 }
    }

    /// Appends one event to the history. The balance is not touched here: the
    /// credit path adjusts it separately, through the checked-arithmetic layer.
    pub fn internal_add_new_reward(&mut self, reward: Reward)
        ensures
            final(self)@.events =~= old(self)@.events.push(reward@),
            final(self)@.amount == old(self)@.amount,
    {
        self.rewards.push(reward);
    }

    pub fn internal_set_reward_amount(&mut self, amount: u128)
        ensures
            final(self)@.amount == amount as nat,
            final(self)@.events =~= old(self)@.events,
    {
        self.amount = amount;
    }

    pub fn internal_reward_amount(&self) -> (r: u128)
        ensures
            r as nat == self@.amount,
    {
        self.amount
    }

    pub fn get_reward(&self, reward_id: u64) -> (r: Reward)
        requires
            (reward_id as nat) < self@.events.len(),
        ensures
            r@ == self@.events[reward_id as int],
    {
        let n = self.rewards.len();
        proof {
            assert(self@.events.len() == self.rewards@.len());
            assert((reward_id as nat) < n as nat);
        }
        let i = reward_id as usize;
        let re = &self.rewards[i];
        Reward { account_id: re.account_id.clone(), amount: re.amount, memo: re.memo.clone() }
    }

    pub fn get_rewards_len(&self) -> (r: u64)
        ensures
            r as nat == self@.events.len(),
    {
        self.rewards.len() as u64
    }
}

} // verus!
