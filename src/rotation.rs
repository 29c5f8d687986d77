use vstd::prelude::*;

verus! {

/// Why a lookup against the keyed source did not produce an answer.
#[derive(Debug, PartialEq, Eq)]
pub enum LookupError {
    /// Every credential of the pool has reported its quota as exceeded.
    QuotaExhausted,
    /// The transport failed; the text describes the failure.
    Transport(String),
}

/// What came back for one attempt made with the current credential.
pub enum Reply<T> {
    /// The source refused the credential: its quota is used up.
    QuotaExceeded,
    /// The request failed for another reason.
    Failed(String),
    /// The source answered.
    Answered(T),
}

/// What the caller does after an attempt.
pub enum Settle<T> {
    /// Try again with the credential at this position of the pool.
    Retry(usize),
    /// The logical call is over, with this outcome.
    Done(Result<T, LookupError>),
}

/// An ordered pool of credentials with a cursor that only moves forward.
pub struct KeyPool {
    n_keys: usize,
    cursor: usize,
}

/// The cursor after an attempt made at `cursor` got `reply`.
pub open spec fn next_cursor<T>(cursor: nat, reply: Reply<T>) -> nat {
    match reply {
        Reply::QuotaExceeded => cursor + 1,
        _ => cursor,
    }
}

/// What the caller is told after an attempt made at `cursor`, in a pool of `n` keys, got `reply`.
pub open spec fn settle_spec<T>(cursor: nat, n: nat, reply: Reply<T>) -> Settle<T> {
    match reply {
        Reply::QuotaExceeded => if cursor + 1 < n {
            Settle::Retry((cursor + 1) as usize)
        } else {
            Settle::Done(Err(LookupError::QuotaExhausted))
        },
        Reply::Failed(e) => Settle::Done(Err(LookupError::Transport(e))),
        Reply::Answered(t) => Settle::Done(Ok(t)),
    }
}

/// The outcome of one logical call that starts at `cursor` and whose attempts get
/// `replies` in turn, with the cursor it leaves; `None` while it still waits for a reply.
pub open spec fn call_outcome<T>(cursor: nat, n: nat, replies: Seq<Reply<T>>) -> Option<(Result<T, LookupError>, nat)>
    decreases replies.len(),
{
    if cursor >= n {
        Some((Err(LookupError::QuotaExhausted), cursor))
    } else if replies.len() == 0 {
        None
    } else {
        match settle_spec(cursor, n, replies[0]) {
            Settle::Retry(_) => call_outcome(cursor + 1, n, replies.drop_first()),
            Settle::Done(r) => Some((r, next_cursor(cursor, replies[0]))),
        }
    }
}

impl KeyPool {
    /// The number of credentials in the pool.
    pub closed spec fn size(&self) -> nat {
        self.n_keys as nat
    }

    /// The position of the credential in use; equal to `size()` once all are spent.
    pub closed spec fn position(&self) -> nat {
        self.cursor as nat
    }

    /// A pool of `n_keys` credentials, starting at the first.
    pub fn new(n_keys: usize) -> (r: KeyPool)
        ensures
            r.size() == n_keys,
            r.position() == 0,
    {
        KeyPool { n_keys, cursor: 0 }
    }

    /// The credential to use for the next attempt, or `QuotaExhausted` once every
    /// credential is spent.
    pub fn current_key(&self) -> (r: Result<usize, LookupError>)
        ensures
            self.position() < self.size() ==> r == Ok::<usize, LookupError>(self.position() as usize),
            self.position() >= self.size() ==> r == Err::<usize, LookupError>(LookupError::QuotaExhausted),
    {
        if self.cursor < self.n_keys {
            Ok(self.cursor)
        } else {
            Err(LookupError::QuotaExhausted)
        }
    }

    /// Takes in the reply to an attempt made with the current credential.
    pub fn settle<T>(&mut self, reply: Reply<T>) -> (r: Settle<T>)
        requires
            old(self).position() < old(self).size(),
        ensures
            final(self).size() == old(self).size(),
            final(self).position() == next_cursor(old(self).position(), reply),
            r == settle_spec(old(self).position(), old(self).size(), reply),
            final(self).position() <= final(self).size(),
    {
        match reply {
            Reply::QuotaExceeded => {
                self.cursor = self.cursor + 1;
                if self.cursor < self.n_keys {
                    Settle::Retry(self.cursor)
                } else {
                    Settle::Done(Err(LookupError::QuotaExhausted))
                }
            },
            Reply::Failed(e) => Settle::Done(Err(LookupError::Transport(e))),
            Reply::Answered(t) => Settle::Done(Ok(t)),
        }
    }
}

/// `k` replies of quota exhaustion.
pub open spec fn quota_replies<T>(k: nat) -> Seq<Reply<T>> {
    Seq::new(k, |i: int| Reply::<T>::QuotaExceeded)
}

/// Rotation is transparent: when the first `k` credentials of a pool of `n` report their
/// quota exceeded and the next one is answered, the call returns that answer, exactly as
/// a call answered at once by a single credential does, and leaves the cursor at `k`.
pub proof fn lemma_rotation_transparent<T>(n: nat, k: nat, t: T)
    requires
        k < n,
    ensures
        call_outcome(0, n, quota_replies::<T>(k).push(Reply::Answered(t))) == Some((Ok::<T, LookupError>(t), k)),
        call_outcome(0, 1, seq![Reply::Answered(t)]) == Some((Ok::<T, LookupError>(t), 0nat)),
{
    lemma_rotation_from(0, n, k, t);
    assert(quota_replies::<T>(0).push(Reply::Answered(t)) =~= seq![Reply::Answered(t)]);
    lemma_rotation_from(0, 1, 0, t);
}

proof fn lemma_rotation_from<T>(c: nat, n: nat, k: nat, t: T)
    requires
        c + k < n,
    ensures
        call_outcome(c, n, quota_replies::<T>(k).push(Reply::Answered(t))) == Some((Ok::<T, LookupError>(t), c + k)),
    decreases k,
{
    let rs = quota_replies::<T>(k).push(Reply::Answered(t));
    if k > 0 {
        assert(rs[0] == Reply::<T>::QuotaExceeded);
        assert(rs.drop_first() =~= quota_replies::<T>((k - 1) as nat).push(Reply::Answered(t)));
        lemma_rotation_from(c + 1, n, (k - 1) as nat, t);
    } else {
        assert(rs[0] == Reply::Answered(t));
    }
}

} // verus!
