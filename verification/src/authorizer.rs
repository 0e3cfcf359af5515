//! The token authority: one immortal root token and minted user tokens.

use crate::json::clone_optional_value;
use crate::moment::Moment;
use crate::string_map::StringMap;
use crate::text::same_text;
use rand::Rng;
use vstd::prelude::*;
use vstd::string::StringExecFns;

verus! {

/// How long a root authentication is good for: one hundred years, in seconds.
pub const ROOT_LIFETIME_SECONDS: u64 = 3_153_600_000;

/// How many random characters a generated token ends in.
pub const TOKEN_RANDOM_LENGTH: usize = 30;

/// Whether `c` is an ASCII letter or digit.
pub open spec fn is_alphanumeric(c: char) -> bool {
    ('0' <= c && c <= '9') || ('A' <= c && c <= 'Z') || ('a' <= c && c <= 'z')
}

/// Whether `text` is `prefix` followed by thirty ASCII letters and digits.
pub open spec fn is_generated_token(text: Seq<char>, prefix: Seq<char>) -> bool {
    &&& text.len() == prefix.len() + TOKEN_RANDOM_LENGTH
    &&& text.subrange(0, prefix.len() as int) == prefix
    &&& forall|i: int| prefix.len() <= i < text.len() ==> is_alphanumeric(#[trigger] text[i])
}

/// Draws `length` characters from `rand`'s thread-local generator through its
/// `Alphanumeric` distribution.
///
/// Trusted: the text has exactly `length` characters and each is an ASCII letter
/// or digit. Nothing is claimed about which ones.
#[verifier::external_body]
fn random_alphanum(length: usize) -> (text: String)
    ensures
        text@.len() == length,
        forall|i: int| 0 <= i < text@.len() ==> is_alphanumeric(#[trigger] text@[i]),
{
    rand::thread_rng().sample_iter(&rand::distributions::Alphanumeric).take(length).map(
        char::from,
    ).collect()
}

/// Whether `user` is the name of the root user.
pub fn is_root_user(user: &str) -> (root: bool)
    ensures
        root == (user@ == "root"@),
{
    same_text(user, "root")
}

/// Who a token stands for, and until when.
#[derive(Debug, PartialEq)]
pub struct Entry {
    pub user: String,
    pub expiry: Moment,
    pub info: Option<serde_json::Value>,
}

/// The mathematical value of an [`Entry`].
pub struct EntryView {
    pub user: Seq<char>,
    pub expiry: Moment,
    pub info: Option<serde_json::Value>,
}

impl View for Entry {
    type V = EntryView;

    open spec fn view(&self) -> EntryView {
        EntryView { user: self.user@, expiry: self.expiry, info: self.info }
    }
}

impl Clone for Entry {
    fn clone(&self) -> (copy: Self)
        ensures
            copy@ == self@,
    {
        Entry {
            user: self.user.clone(),
            expiry: self.expiry,
            info: clone_optional_value(&self.info),
        }
    }
}

/// The characters of each text of a list.
pub open spec fn texts(list: Seq<String>) -> Seq<Seq<char>> {
    list.map_values(|text: String| text@)
}

/// The state of the token authority as mathematics.
pub struct AuthorizerView {
    /// The root token.
    pub root_token: Seq<char>,
    /// The minted tokens and whom they stand for.
    pub by_token: Map<Seq<char>, EntryView>,
    /// For each user, the tokens minted for them, oldest first.
    pub by_user: Map<Seq<char>, Seq<Seq<char>>>,
}

impl AuthorizerView {
    /// The synthetic entry that the root token authenticates as.
    pub open spec fn root_entry(now: Moment) -> EntryView {
        EntryView {
            user: "root"@,
            expiry: now.plus_seconds(ROOT_LIFETIME_SECONDS),
            info: None,
        }
    }

    /// The tokens listed for `user`.
    pub open spec fn owned_by(self, user: Seq<char>) -> Seq<Seq<char>> {
        if self.by_user.contains_key(user) {
            self.by_user[user]
        } else {
            Seq::empty()
        }
    }

    /// Every minted token is listed under the user it stands for.
    pub open spec fn indexed(self) -> bool {
        forall|token: Seq<char>| #[trigger]
            self.by_token.contains_key(token) ==> self.owned_by(
                self.by_token[token].user,
            ).contains(token)
    }

    /// No minted token stands for the user `root`: only the root token does.
    pub open spec fn rootless(self) -> bool {
        forall|token: Seq<char>| #[trigger]
            self.by_token.contains_key(token) ==> self.by_token[token].user != "root"@
    }

    /// Whom `token` authenticates as at `now`: the root entry for the root token,
    /// else the stored entry while its expiry lies in the future, else nobody.
    pub open spec fn authenticate(self, token: Seq<char>, now: Moment) -> Option<EntryView> {
        if token == self.root_token {
            Some(AuthorizerView::root_entry(now))
        } else if self.by_token.contains_key(token) && self.by_token[token].expiry.nanos
            > now.nanos {
            Some(self.by_token[token])
        } else {
            None
        }
    }

    /// The state after `token` was stored for `entry`.
    pub open spec fn mint(self, token: Seq<char>, entry: EntryView) -> AuthorizerView {
        AuthorizerView {
            root_token: self.root_token,
            by_token: self.by_token.insert(token, entry),
            by_user: self.by_user.insert(entry.user, self.owned_by(entry.user).push(token)),
        }
    }

    /// The state after the tokens of `user` were revoked. Root has none to revoke.
    pub open spec fn revoke(self, user: Seq<char>) -> AuthorizerView {
        if user == "root"@ {
            self
        } else {
            AuthorizerView {
                root_token: self.root_token,
                by_token: self.by_token.remove_keys(self.owned_by(user).to_set()),
                by_user: self.by_user.remove(user),
            }
        }
    }

    /// Storing a token keeps every token listed under its user.
    pub proof fn lemma_mint_keeps_index(self, token: Seq<char>, entry: EntryView)
        requires
            self.indexed(),
        ensures
            self.mint(token, entry).indexed(),
    {
        let after = self.mint(token, entry);
        assert forall|t: Seq<char>| #[trigger] after.by_token.contains_key(t) implies after.owned_by(
            after.by_token[t].user,
        ).contains(t) by {
            if t == token {
                let list = self.owned_by(entry.user).push(token);
                assert(list[list.len() - 1] == token);
            } else {
                assert(self.by_token.contains_key(t));
                let user = self.by_token[t].user;
                let list = self.owned_by(user);
                let i = choose|i: int| 0 <= i < list.len() && list[i] == t;
                if user == entry.user {
                    assert(list.push(token)[i] == t);
                }
            }
        }
    }

    /// Revoking a user's tokens keeps every remaining token listed under its user.
    pub proof fn lemma_revoke_keeps_index(self, user: Seq<char>)
        requires
            self.indexed(),
        ensures
            self.revoke(user).indexed(),
    {
        let after = self.revoke(user);
        if user != "root"@ {
            assert forall|t: Seq<char>| #[trigger]
                after.by_token.contains_key(t) implies after.owned_by(
                after.by_token[t].user,
            ).contains(t) by {
                assert(self.by_token.contains_key(t));
                assert(!self.owned_by(user).contains(t));
            }
        }
    }

    /// After a user other than root was revoked, no token that stood for that user
    /// authenticates any more, unless it is the root token itself; and the root
    /// token authenticates as it did before.
    pub proof fn lemma_revoked_tokens_are_dead(
        self,
        user: Seq<char>,
        token: Seq<char>,
        now: Moment,
    )
        requires
            self.indexed(),
            user != "root"@,
            self.by_token.contains_key(token),
            self.by_token[token].user == user,
            token != self.root_token,
        ensures
            self.revoke(user).authenticate(token, now).is_none(),
            self.revoke(user).authenticate(self.root_token, now) == self.authenticate(
                self.root_token,
                now,
            ),
    {
        assert(self.owned_by(user).contains(token));
    }

    /// Storing a token for a user other than root keeps root without minted
    /// tokens, and so does revoking.
    pub proof fn lemma_root_stays_without_tokens(self, token: Seq<char>, entry: EntryView)
        requires
            self.rootless(),
        ensures
            entry.user != "root"@ ==> self.mint(token, entry).rootless(),
            forall|user: Seq<char>| #[trigger] self.revoke(user).rootless(),
    {
        assert forall|user: Seq<char>| #[trigger] self.revoke(user).rootless() by {
            let after = self.revoke(user);
            assert forall|t: Seq<char>| #[trigger] after.by_token.contains_key(t) implies after.by_token[t].user
                != "root"@ by {
                assert(self.by_token.contains_key(t));
            }
        }
    }

    /// Root cannot be impersonated: a token that authenticates as the user `root`
    /// is the root token.
    pub proof fn lemma_only_the_root_token_is_root(self, token: Seq<char>, now: Moment)
        requires
            self.rootless(),
            self.authenticate(token, now).is_some(),
            self.authenticate(token, now).unwrap().user == "root"@,
        ensures
            token == self.root_token,
    {
    }

    /// A token that was just stored authenticates as its entry until the entry
    /// expires, unless it is the root token itself.
    pub proof fn lemma_minted_token_authenticates(
        self,
        token: Seq<char>,
        entry: EntryView,
        now: Moment,
    )
        requires
            token != self.root_token,
        ensures
            entry.expiry.nanos > now.nanos ==> self.mint(token, entry).authenticate(token, now)
                == Some(entry),
            entry.expiry.nanos <= now.nanos ==> self.mint(token, entry).authenticate(token, now)
                .is_none(),
    {
    }

    /// A token authenticates exactly when it is the root token or a stored token
    /// whose expiry lies after `now`.
    pub proof fn lemma_authenticate_iff(self, token: Seq<char>, now: Moment)
        ensures
            self.authenticate(token, now).is_some() <==> (token == self.root_token || (
                self.by_token.contains_key(token) && self.by_token[token].expiry.nanos > now.nanos)),
            token != self.root_token && self.authenticate(token, now).is_some()
                ==> self.authenticate(token, now) == Some(self.by_token[token]),
    {
    }
}

/// The token authority. It holds the root token, the minted tokens with their
/// entries, and for each user the list of tokens minted for them.
pub struct Authorizer {
    root_token: String,
    by_token: StringMap<Entry>,
    by_user: StringMap<Vec<String>>,
}

impl View for Authorizer {
    type V = AuthorizerView;

    closed spec fn view(&self) -> AuthorizerView {
        AuthorizerView {
            root_token: self.root_token@,
            by_token: self.by_token@.map_values(|entry: Entry| entry@),
            by_user: self.by_user@.map_values(|list: Vec<String>| texts(list@)),
        }
    }
}

impl Authorizer {
    /// The two tables are sound.
    pub closed spec fn tables_wf(&self) -> bool {
        &&& self.by_token.wf()
        &&& self.by_user.wf()
    }

    /// The two tables are sound, every token is listed under its user, and no
    /// token stands for the user `root`.
    pub open spec fn wf(&self) -> bool {
        &&& self.tables_wf()
        &&& self@.indexed()
        &&& self@.rootless()
    }

    /// An authority that knows the root token and nothing else.
    pub fn new(root_token: String) -> (authorizer: Self)
        ensures
            authorizer.wf(),
            authorizer@.root_token == root_token@,
            authorizer@.by_token == Map::<Seq<char>, EntryView>::empty(),
            authorizer@.by_user == Map::<Seq<char>, Seq<Seq<char>>>::empty(),
    {
        let authorizer = Authorizer {
            root_token,
            by_token: StringMap::new(),
            by_user: StringMap::new(),
        };
        assert(authorizer@.by_token =~= Map::<Seq<char>, EntryView>::empty());
        assert(authorizer@.by_user =~= Map::<Seq<char>, Seq<Seq<char>>>::empty());
        authorizer
    }

    /// A fresh root token: `shrubtoken1:ROOT` and thirty random letters and digits.
    pub fn random_root_token() -> (token: String)
        ensures
            is_generated_token(token@, "shrubtoken1:ROOT"@),
    {
        let suffix = random_alphanum(TOKEN_RANDOM_LENGTH);
        let mut token = "shrubtoken1:ROOT".to_owned();
        token.append(suffix.as_str());
        assert(token@.subrange(0, "shrubtoken1:ROOT"@.len() as int) =~= "shrubtoken1:ROOT"@);
        assert forall|i: int| "shrubtoken1:ROOT"@.len() <= i < token@.len() implies is_alphanumeric(
            #[trigger] token@[i],
        ) by {
            assert(token@[i] == suffix@[i - "shrubtoken1:ROOT"@.len()]);
        }
        token
    }

    /// Stores `token` as standing for `entry` and lists it under the entry's
    /// user. A token that was already stored now stands for `entry`. No token
    /// can be stored for the user `root`.
    pub fn register(&mut self, token: String, entry: Entry)
        requires
            old(self).wf(),
            entry@.user != "root"@,
        ensures
            final(self).wf(),
            final(self)@ == old(self)@.mint(token@, entry@),
    {
        let user = entry.user.clone();
        let listed = token.clone();
        let ghost before = self@;
        self.by_token.insert(token, entry);
        let mut list = match self.by_user.remove(user.as_str()) {
            Some(list) => list,
            None => Vec::new(),
        };
        assert(texts(list@) == before.owned_by(user@));
        list.push(listed);
        assert(texts(list@) =~= before.owned_by(user@).push(token@));
        self.by_user.insert(user, list);
        proof {
            assert(self@.by_token =~= before.mint(token@, entry@).by_token);
            assert(self@.by_user =~= before.mint(token@, entry@).by_user);
            before.lemma_mint_keeps_index(token@, entry@);
            before.lemma_root_stays_without_tokens(token@, entry@);
        }
    }

    /// Mints a token for `entry`: `shrubtoken1:` and thirty random letters and
    /// digits. The token is stored and returned. No token can be minted for the
    /// user `root`.
    pub fn mint_token(&mut self, entry: Entry) -> (token: String)
        requires
            old(self).wf(),
            entry@.user != "root"@,
        ensures
            final(self).wf(),
            is_generated_token(token@, "shrubtoken1:"@),
            final(self)@ == old(self)@.mint(token@, entry@),
    {
        let suffix = random_alphanum(TOKEN_RANDOM_LENGTH);
        let mut token = "shrubtoken1:".to_owned();
        token.append(suffix.as_str());
        assert(token@.subrange(0, "shrubtoken1:"@.len() as int) =~= "shrubtoken1:"@);
        assert forall|i: int| "shrubtoken1:"@.len() <= i < token@.len() implies is_alphanumeric(
            #[trigger] token@[i],
        ) by {
            assert(token@[i] == suffix@[i - "shrubtoken1:"@.len()]);
        }
        self.register(token.clone(), entry);
        token
    }

    /// Whom `token` authenticates as at `now`.
    pub fn authenticate(&self, token: &str, now: Moment) -> (entry: Option<Entry>)
        requires
            self.wf(),
        ensures
            match entry {
                Some(e) => self@.authenticate(token@, now) == Some(e@),
                None => self@.authenticate(token@, now).is_none(),
            },
    {
        if same_text(self.root_token.as_str(), token) {
            return Some(
                Entry {
                    user: "root".to_owned(),
                    expiry: now.after_seconds(ROOT_LIFETIME_SECONDS),
                    info: None,
                },
            );
        }
        match self.by_token.get(token) {
            Some(entry) => {
                if entry.expiry.nanos > now.nanos {
                    Some(entry.clone())
                } else {
                    None
                }
            },
            None => None,
        }
    }

    /// Revokes every token listed for `user` and forgets the list. Does nothing
    /// for the user `root`.
    pub fn revoke_tokens_for_user(&mut self, user: String)
        requires
            old(self).wf(),
        ensures
            final(self).wf(),
            final(self)@ == old(self)@.revoke(user@),
    {
        if same_text(user.as_str(), "root") {
            return ;
        }
        let ghost before = self@;
        let ghost stored = self.by_token@;
        match self.by_user.remove(user.as_str()) {
            Some(tokens) => {
                let ghost by_user = self.by_user;
                let ghost root_token = self.root_token;
                let mut i: usize = 0;
                while i < tokens.len()
                    invariant
                        i <= tokens.len(),
                        self.by_token.wf(),
                        self.by_user == by_user,
                        self.root_token == root_token,
                        forall|key: Seq<char>|
                            #![trigger stored.contains_key(key)]
                            #![trigger self.by_token@.contains_key(key)]
                            self.by_token@.contains_key(key) <==> (stored.contains_key(key)
                                && !texts(tokens@).take(i as int).contains(key)),
                        forall|key: Seq<char>| #[trigger]
                            self.by_token@.contains_key(key) ==> self.by_token@[key] == stored[key],
                    decreases tokens.len() - i,
                {
                    let ghost seen = texts(tokens@).take(i as int);
                    let ghost next = texts(tokens@).take(i as int + 1);
                    self.by_token.remove(tokens[i].as_str());
                    proof {
                        assert(next =~= seen.push(tokens[i as int]@));
                        assert forall|key: Seq<char>|
                            #![trigger next.contains(key)]
                            #![trigger seen.contains(key)]
                            next.contains(key) <==> (seen.contains(key) || key == tokens[i as int]@) by {
                            if seen.contains(key) {
                                let j = choose|j: int| 0 <= j < seen.len() && seen[j] == key;
                                assert(next[j] == key);
                            }
                            if key == tokens[i as int]@ {
                                assert(next[i as int] == key);
                            }
                        }
                    }
                    i += 1;
                }
                proof {
                    assert(texts(tokens@).take(tokens.len() as int) =~= texts(tokens@));
                    assert(before.owned_by(user@) == texts(tokens@));
                    assert(self@.by_token =~= before.revoke(user@).by_token);
                    assert(self@.by_user =~= before.revoke(user@).by_user);
                }
            },
            None => {
                proof {
                    assert(before.owned_by(user@) =~= Seq::<Seq<char>>::empty());
                    assert(self@.by_token =~= before.revoke(user@).by_token);
                    assert(self@.by_user =~= before.revoke(user@).by_user);
                }
            },
        }
        proof {
            before.lemma_revoke_keeps_index(user@);
            before.lemma_root_stays_without_tokens(Seq::empty(), arbitrary());
        }
    }
}

} // verus!
