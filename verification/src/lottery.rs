use vstd::prelude::*;

use crate::account::AccountId;
use crate::draw::build_seed;
use crate::draw::draw_index;
use crate::draw::winner_index;
use crate::errors::LotteryError;
use crate::ledger::lemma_upsert_properties;
use crate::ledger::sum_balances;
use crate::ledger::upsert;
use crate::ledger::BalanceMap;

verus! {

/// The account a draw selects: a function of the player sequence and the
/// entropy alone (meaningful only for a non-empty sequence).
pub open spec fn winner_of(players: Seq<(Seq<char>, u128)>, entropy: Seq<u8>) -> Seq<char> {
    players[winner_index(entropy, players.len() as int)].0
}

/// Law: the draw is deterministic. For a fixed player sequence and a fixed
/// entropy value it selects the same index, and so the same account, on
/// every evaluation.
pub proof fn lemma_draw_deterministic(
    players1: Seq<(Seq<char>, u128)>,
    players2: Seq<(Seq<char>, u128)>,
    entropy1: Seq<u8>,
    entropy2: Seq<u8>,
)
    requires
        players1 == players2,
        entropy1 == entropy2,
    ensures
        winner_index(entropy1, players1.len() as int) == winner_index(
            entropy2,
            players2.len() as int,
        ),
        winner_of(players1, entropy1) == winner_of(players2, entropy2),
{
}

/// The outbound fire-and-forget staking call produced by an investment. The
/// core never observes its outcome; the host performs it after the ledger
/// mutation commits.
#[derive(Debug)]
pub struct StakeDelegation {
    /// The staking service to call.
    pub target: AccountId,
    /// The amount to forward.
    pub amount: u128,
}

/// The pooled-staking lottery: investor and player ledgers, the aggregate
/// stake, and the configured minimum deposit for a play.
pub struct Contract {
    pub owner_id: AccountId,
    pub staking_contract: AccountId,
    pub investors: BalanceMap,
    pub players: BalanceMap,
    pub total_stake: u128,
    pub min_deposit: u128,
}

impl Contract {
    /// Well-formedness: one entry per account in each ledger, and the
    /// aggregate stake bounds the investors' sum, so that sum always fits
    /// the balance type.
    pub open spec fn wf(&self) -> bool {
        &&& self.investors.wf()
        &&& self.players.wf()
        &&& sum_balances(self.investors@) <= self.total_stake
    }

    /// Empty ledgers, zero aggregate stake, and the given configuration.
    pub fn new(owner_id: AccountId, staking_contract: AccountId, min_deposit: u128) -> (r:
        Contract)
        ensures
            r.wf(),
            r.owner_id@ == owner_id@,
            r.staking_contract@ == staking_contract@,
            r.min_deposit == min_deposit,
            r.total_stake == 0,
            r.investors@.len() == 0,
            r.players@.len() == 0,
    {
        Contract {
            owner_id,
            staking_contract,
            investors: BalanceMap::new(),
            players: BalanceMap::new(),
            total_stake: 0,
            min_deposit,
        }
    }

    /// Records the investment with latest-deposit-wins semantics, grows the
    /// aggregate stake, and hands back the staking delegation for the host
    /// to perform. An addition that would not fit the balance type fails
    /// without mutating anything.
    pub fn invest(&mut self, investor: AccountId, amount: u128) -> (r: Result<
        StakeDelegation,
        LotteryError,
    >)
        requires
            old(self).wf(),
        ensures
            final(self).wf(),
            r is Ok <==> old(self).total_stake + amount <= u128::MAX,
            r matches Err(e) ==> e == LotteryError::ArithmeticOverflow && *final(self) == *old(
                self,
            ),
            r is Ok ==> final(self).investors@ == upsert(old(self).investors@, investor@, amount),
            r is Ok ==> final(self).total_stake == old(self).total_stake + amount,
            r is Ok ==> final(self).players == old(self).players,
            final(self).owner_id == old(self).owner_id,
            final(self).staking_contract == old(self).staking_contract,
            final(self).min_deposit == old(self).min_deposit,
            r matches Ok(d) ==> d.target@ == old(self).staking_contract@ && d.amount == amount,
    {
        if amount > u128::MAX - self.total_stake {
            return Err(LotteryError::ArithmeticOverflow);
        }
        proof {
            lemma_upsert_properties(self.investors@, investor@, amount);
        }
        self.investors.record(investor, amount);
        self.total_stake = self.total_stake + amount;
        Ok(StakeDelegation { target: self.staking_contract.clone(), amount })
    }

    /// Validates the offered deposit against the configured minimum and
    /// records the play with latest-deposit-wins semantics. A deposit below
    /// the minimum fails without mutating anything.
    pub fn play(&mut self, player: AccountId, amount: u128) -> (r: Result<(), LotteryError>)
        requires
            old(self).wf(),
        ensures
            final(self).wf(),
            r is Ok <==> amount >= old(self).min_deposit,
            r matches Err(e) ==> e == LotteryError::InvalidDeposit && *final(self) == *old(self),
            r is Ok ==> final(self).players@ == upsert(old(self).players@, player@, amount),
            r is Ok ==> final(self).investors == old(self).investors,
            final(self).total_stake == old(self).total_stake,
            final(self).owner_id == old(self).owner_id,
            final(self).staking_contract == old(self).staking_contract,
            final(self).min_deposit == old(self).min_deposit,
    {
        if amount < self.min_deposit {
            return Err(LotteryError::InvalidDeposit);
        }
        proof {
            lemma_upsert_properties(self.players@, player@, amount);
        }
        self.players.record(player, amount);
        Ok(())
    }

    /// The sum over all investor balances. The aggregate stake bounds it, so
    /// it always fits the balance type.
    pub fn total_investment(&self) -> (r: u128)
        requires
            self.wf(),
        ensures
            r == sum_balances(self.investors@),
    {
        match self.investors.total_checked() {
            Ok(t) => t,
            Err(_) => unreached(),
        }
    }

    /// The symmetric sum over all player balances; nothing bounds it, so
    /// overflow is surfaced as a failure.
    pub fn total_player_deposit(&self) -> (r: Result<u128, LotteryError>)
        ensures
            r is Ok <==> sum_balances(self.players@) <= u128::MAX,
            r matches Ok(t) ==> t == sum_balances(self.players@),
            r matches Err(e) ==> e == LotteryError::ArithmeticOverflow,
    {
        self.players.total_checked()
    }

    /// The placeholder yield model: a tenth of the aggregate stake, floor
    /// division.
    pub fn simulate_profit(&self) -> (r: u128)
        ensures
            r == self.total_stake / 10,
    {
        self.total_stake / 10
    }

    /// Draws one winner from the current players with the host's entropy:
    /// the entropy's first bytes, zero-padded to 32, seed the generator, and
    /// the drawn index picks from the players in their stable ledger order.
    /// With no player recorded the draw fails before any entropy is used.
    pub fn select_winner(&self, entropy: &Vec<u8>) -> (r: Result<AccountId, LotteryError>)
        ensures
            r is Ok <==> self.players@.len() > 0,
            r matches Err(e) ==> e == LotteryError::NoPlayers,
            self.players@.len() > 0 ==> 0 <= winner_index(entropy@, self.players@.len() as int)
                < self.players@.len(),
            r matches Ok(w) ==> w@ == winner_of(self.players@, entropy@),
    {
        let n: usize = self.players.len();
        if n == 0 {
            return Err(LotteryError::NoPlayers);
        }
        let seed: Vec<u8> = build_seed(entropy);
        let idx: usize = draw_index(&seed, n);
        Ok(self.players.account_at(idx))
    }
}

} // verus!
