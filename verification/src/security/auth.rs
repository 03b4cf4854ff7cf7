//! Token authentication: tokens map to the users they belong to.

use vstd::prelude::*;
use vstd::string::StringExecFns;
use crate::protocol::text::str_eq;
use crate::security::AuthResult;

verus! {

/// The user a token belongs to, in a list of token and user pairs: the
/// first pair with that token.
pub open spec fn lookup(pairs: Seq<(Seq<char>, Seq<char>)>, token: Seq<char>) -> Option<Seq<char>>
    decreases pairs.len(),
{
    if pairs.len() == 0 {
        None
    } else if pairs[0].0 == token {
        Some(pairs[0].1)
    } else {
        lookup(pairs.skip(1), token)
    }
}

/// The pairs as views.
pub open spec fn pairs_of(v: Seq<(String, String)>) -> Seq<(Seq<char>, Seq<char>)> {
    v.map_values(|p: (String, String)| (p.0@, p.1@))
}

/// Whether no token occurs twice.
pub open spec fn distinct_tokens(pairs: Seq<(Seq<char>, Seq<char>)>) -> bool {
    forall|i: int, j: int| 0 <= i < j < pairs.len() ==> #[trigger] pairs[i].0 != #[trigger] pairs[j].0
}

/// Where a token is in the list, `lookup` finds its user; where no pair
/// has it, it finds nothing.
proof fn lemma_lookup_at(pairs: Seq<(Seq<char>, Seq<char>)>, token: Seq<char>, i: int)
    requires
        distinct_tokens(pairs),
        0 <= i < pairs.len(),
        pairs[i].0 == token,
    ensures
        lookup(pairs, token) == Some(pairs[i].1),
    decreases pairs.len(),
{
    if i > 0 {
        assert(pairs[0].0 != pairs[i].0);
        lemma_lookup_at(pairs.skip(1), token, i - 1);
    }
}

proof fn lemma_lookup_absent(pairs: Seq<(Seq<char>, Seq<char>)>, token: Seq<char>)
    requires
        forall|i: int| 0 <= i < pairs.len() ==> #[trigger] pairs[i].0 != token,
    ensures
        lookup(pairs, token) is None,
    decreases pairs.len(),
{
    if pairs.len() > 0 {
        assert(pairs[0].0 != token);
        assert forall|i: int| 0 <= i < pairs.skip(1).len() implies #[trigger] pairs.skip(1)[i].0 != token by {
            assert(pairs.skip(1)[i] == pairs[i + 1]);
        }
        lemma_lookup_absent(pairs.skip(1), token);
    }
}

/// Whether a token is found somewhere in the list.
proof fn lemma_lookup_some(pairs: Seq<(Seq<char>, Seq<char>)>, token: Seq<char>)
    requires
        distinct_tokens(pairs),
    ensures
        lookup(pairs, token) is Some <==> exists|i: int| 0 <= i < pairs.len() && #[trigger] pairs[i].0 == token,
{
    if exists|i: int| 0 <= i < pairs.len() && #[trigger] pairs[i].0 == token {
        let i = choose|i: int| 0 <= i < pairs.len() && #[trigger] pairs[i].0 == token;
        lemma_lookup_at(pairs, token, i);
    } else {
        lemma_lookup_absent(pairs, token);
    }
}

/// Tokens and the users they belong to, and whether a token is needed.
pub struct AuthManager {
    tokens: Vec<(String, String)>,
    required: bool,
}

impl AuthManager {
    /// The token and user pairs, each token once.
    pub closed spec fn pairs(&self) -> Seq<(Seq<char>, Seq<char>)> {
        pairs_of(self.tokens@)
    }

    /// The user a token belongs to.
    pub open spec fn user_of(&self, token: Seq<char>) -> Option<Seq<char>> {
        lookup(self.pairs(), token)
    }

    /// Whether a token is needed.
    pub closed spec fn needs_token(&self) -> bool {
        self.required
    }

    /// No token occurs twice.
    pub open spec fn wf(&self) -> bool {
        distinct_tokens(self.pairs())
    }

    /// A manager with no token.
    pub fn new(required: bool) -> (m: Self)
        ensures
            m.wf(),
            m.pairs().len() == 0,
            m.needs_token() == required,
    {
        let m = AuthManager { tokens: Vec::new(), required };
        assert(m.pairs() =~= Seq::empty());
        m
    }

    /// A manager that needs a token and knows one.
    pub fn with_token(token: String, user_id: String) -> (m: Self)
        ensures
            m.wf(),
            m.pairs() == seq![(token@, user_id@)],
            m.needs_token(),
    {
        let mut tokens: Vec<(String, String)> = Vec::new();
        tokens.push((token, user_id));
        let m = AuthManager { tokens, required: true };
        assert(m.pairs() =~= seq![(token@, user_id@)]);
        m
    }

    fn position(&self, token: &str) -> (r: Option<usize>)
        requires
            self.wf(),
        ensures
            match r {
                Some(i) => i < self.pairs().len() && self.pairs()[i as int].0 == token@,
                None => forall|i: int| 0 <= i < self.pairs().len() ==> #[trigger] self.pairs()[i].0 != token@,
            },
    {
        let mut i: usize = 0;
        while i < self.tokens.len()
            invariant
                i <= self.tokens@.len(),
                forall|k: int| 0 <= k < i ==> #[trigger] self.pairs()[k].0 != token@,
            decreases self.tokens@.len() - i,
        {
            if str_eq(self.tokens[i].0.as_str(), token) {
                return Some(i);
            }
            i = i + 1;
        }
        None
    }

    /// Adds a token for a user; a token already known now belongs to the
    /// new user.
    pub fn add_token(&mut self, token: String, user_id: String)
        requires
            old(self).wf(),
        ensures
            final(self).wf(),
            final(self).needs_token() == old(self).needs_token(),
            final(self).user_of(token@) == Some(user_id@),
            forall|t: Seq<char>| t != token@ ==> #[trigger] final(self).user_of(t) == old(self).user_of(t),
    {
        match self.position(token.as_str()) {
            Some(i) => {
                let ghost before = self.pairs();
                self.tokens.set(i, (token, user_id));
                proof {
                    assert(self.pairs() =~= before.update(i as int, (token@, user_id@)));
                    lemma_lookup_at(self.pairs(), token@, i as int);
                    assert forall|t: Seq<char>| t != token@ implies #[trigger] lookup(self.pairs(), t) == lookup(before, t) by {
                        lemma_lookup_some(before, t);
                        lemma_lookup_some(self.pairs(), t);
                        if exists|k: int| 0 <= k < before.len() && #[trigger] before[k].0 == t {
                            let k = choose|k: int| 0 <= k < before.len() && #[trigger] before[k].0 == t;
                            lemma_lookup_at(before, t, k);
                            lemma_lookup_at(self.pairs(), t, k);
                        }
                    }
                }
            },
            None => {
                let ghost before = self.pairs();
                self.tokens.push((token, user_id));
                proof {
                    assert(self.pairs() =~= before.push((token@, user_id@)));
                    lemma_lookup_at(self.pairs(), token@, before.len() as int);
                    assert forall|t: Seq<char>| t != token@ implies #[trigger] lookup(self.pairs(), t) == lookup(before, t) by {
                        lemma_lookup_some(before, t);
                        lemma_lookup_some(self.pairs(), t);
                        if exists|k: int| 0 <= k < before.len() && #[trigger] before[k].0 == t {
                            let k = choose|k: int| 0 <= k < before.len() && #[trigger] before[k].0 == t;
                            lemma_lookup_at(before, t, k);
                            lemma_lookup_at(self.pairs(), t, k);
                        }
                    }
                }
            },
        }
    }

    /// Removes a token; whether it was known.
    pub fn remove_token(&mut self, token: &str) -> (removed: bool)
        requires
            old(self).wf(),
        ensures
            final(self).wf(),
            final(self).needs_token() == old(self).needs_token(),
            removed == (old(self).user_of(token@) is Some),
            final(self).user_of(token@) is None,
            forall|t: Seq<char>| t != token@ ==> #[trigger] final(self).user_of(t) == old(self).user_of(t),
            final(self).pairs().len() == old(self).pairs().len() - (if removed { 1int } else { 0int }),
    {
        let ghost before = self.pairs();
        proof {
            lemma_lookup_some(before, token@);
        }
        match self.position(token) {
            Some(i) => {
                self.tokens.remove(i);
                proof {
                    assert(self.pairs() =~= before.remove(i as int));
                    assert forall|k: int| 0 <= k < self.pairs().len() implies #[trigger] self.pairs()[k].0 != token@ by {
                        if k < i {
                            assert(self.pairs()[k] == before[k]);
                        } else {
                            assert(self.pairs()[k] == before[k + 1]);
                        }
                    }
                    lemma_lookup_absent(self.pairs(), token@);
                    assert forall|t: Seq<char>| t != token@ implies #[trigger] lookup(self.pairs(), t) == lookup(before, t) by {
                        lemma_lookup_some(before, t);
                        lemma_lookup_some(self.pairs(), t);
                        if exists|k: int| 0 <= k < before.len() && #[trigger] before[k].0 == t {
                            let k = choose|k: int| 0 <= k < before.len() && #[trigger] before[k].0 == t;
                            lemma_lookup_at(before, t, k);
                            if k < i {
                                assert(self.pairs()[k] == before[k]);
                                lemma_lookup_at(self.pairs(), t, k);
                            } else {
                                assert(self.pairs()[k - 1] == before[k]);
                                lemma_lookup_at(self.pairs(), t, k - 1);
                            }
                        } else {
                            assert forall|k: int| 0 <= k < self.pairs().len() implies #[trigger] self.pairs()[k].0 != t by {
                                if k < i {
                                    assert(self.pairs()[k] == before[k]);
                                } else {
                                    assert(self.pairs()[k] == before[k + 1]);
                                }
                            }
                        }
                    }
                }
                true
            },
            None => {
                proof {
                    lemma_lookup_absent(before, token@);
                }
                false
            },
        }
    }

    /// Authenticates a request: every request as the user `anonymous`
    /// where no token is needed; else the user of the token given, an
    /// invalid token where it is unknown, and unauthenticated where none is
    /// given.
    pub fn authenticate(&self, token: Option<&str>) -> (r: AuthResult)
        requires
            self.wf(),
        ensures
            !self.needs_token() ==> (r matches AuthResult::Authenticated(u) && u@ == "anonymous"@),
            self.needs_token() ==> match token {
                None => r == AuthResult::Unauthenticated,
                Some(t) => match self.user_of(t@) {
                    Some(u) => r matches AuthResult::Authenticated(v) && v@ == u,
                    None => r == AuthResult::InvalidToken,
                },
            },
    {
        if !self.required {
            return AuthResult::Authenticated(String::from_str("anonymous"));
        }
        match token {
            Some(t) => {
                match self.position(t) {
                    Some(i) => {
                        proof {
                            lemma_lookup_at(self.pairs(), t@, i as int);
                        }
                        AuthResult::Authenticated(self.tokens[i].1.clone())
                    },
                    None => {
                        proof {
                            lemma_lookup_absent(self.pairs(), t@);
                        }
                        AuthResult::InvalidToken
                    },
                }
            },
            None => AuthResult::Unauthenticated,
        }
    }

    /// Whether a token is needed.
    pub fn is_required(&self) -> (b: bool)
        ensures
            b == self.needs_token(),
    {
        self.required
    }

    /// How many tokens are known.
    pub fn token_count(&self) -> (n: usize)
        ensures
            n == self.pairs().len(),
    {
        self.tokens.len()
    }

    /// The users of the tokens, in the order the tokens were added.
    pub fn list_users(&self) -> (users: Vec<String>)
        ensures
            users@.map_values(|u: String| u@) == self.pairs().map_values(|p: (Seq<char>, Seq<char>)| p.1),
    {
        let mut users: Vec<String> = Vec::new();
        let mut i: usize = 0;
        while i < self.tokens.len()
            invariant
                i <= self.tokens@.len(),
                users@.map_values(|u: String| u@) == self.pairs().map_values(|p: (Seq<char>, Seq<char>)| p.1).take(i as int),
            decreases self.tokens@.len() - i,
        {
            let u = self.tokens[i].1.clone();
            let ghost before = users@;
            users.push(u);
            assert(users@ == before.push(u));
            assert(u@ == self.pairs()[i as int].1);
            assert(users@.map_values(|u: String| u@) =~= before.map_values(|u: String| u@).push(u@));
            assert(users@.map_values(|u: String| u@) =~= self.pairs().map_values(|p: (Seq<char>, Seq<char>)| p.1).take(i + 1));
            i = i + 1;
        }
        assert(self.pairs().map_values(|p: (Seq<char>, Seq<char>)| p.1).take(i as int) =~= self.pairs().map_values(|p: (Seq<char>, Seq<char>)| p.1));
        users
    }
}

} // verus!
