use vstd::prelude::*;
use vstd::string::*;
use vstd::utf8::{decode_utf8, encode_utf8, valid_utf8};

use crate::cypher::{CypherQuery, QueryView};
use crate::digest::{is_reserved_key, HASH_KEY, UID_KEY};
use crate::error::Error;
use crate::has_magic_prefix;
use crate::item::{Item, ItemView};
use crate::node::{EntityView, Node};
use crate::rows::{Inner, InnerView, Row};
use crate::strorder::str_eq;

verus! {

/// What AES-128-ECB with PKCS#7 padding makes of the given plaintext.
///
/// The cipher lives in an outside crate; it is deterministic in the key and
/// the plaintext, which is all the proxy relies on, so it is left abstract.
pub uninterp spec fn aes_ecb_encrypt(key: Seq<u8>, plain: Seq<u8>) -> Seq<u8>;

/// What AES-128-ECB decryption with PKCS#7 unpadding makes of a ciphertext:
/// `None` where the library rejects it (length or padding).
pub uninterp spec fn aes_ecb_decrypt(key: Seq<u8>, cipher: Seq<u8>) -> Option<Seq<u8>>;

/// The no-padding encoding of bytes in the proxy's URL-safe alphabet.
pub uninterp spec fn b64_encode(data: Seq<u8>) -> Seq<char>;

/// The inverse decoding; `None` on text the codec rejects.
pub uninterp spec fn b64_decode(s: Seq<char>) -> Option<Seq<u8>>;

/// The proxy's URL/filename-safe encoding alphabet.
const B64_ALPHABET: &'static str =
    "ABCDEFGHIJKLMNOPQRSTUVWXYZabcdefghijklmnopqrstuvwxyz0123456789_$";

/// Relies on soft_aes::aes::aes_enc_ecb: deterministic in key and plaintext;
/// with a 16-byte key and PKCS#7 padding it always succeeds and returns the
/// padded length; and aes_dec_ecb with the same key and padding inverts it,
/// since block decryption undoes block encryption and unpadding undoes the
/// padding it always applies.
#[verifier::external_body]
fn aes_encrypt_bytes(key: &[u8; 16], plain: &[u8]) -> (r: Vec<u8>)
    ensures
        r@ == aes_ecb_encrypt(key@, plain@),
        r@.len() == plain@.len() + 16 - (plain@.len() % 16),
        aes_ecb_decrypt(key@, r@) == Some(plain@),
{
    soft_aes::aes::aes_enc_ecb(plain, key, Some("PKCS7")).unwrap()
}

/// Relies on soft_aes::aes::aes_dec_ecb: deterministic in key and ciphertext;
/// fails exactly on input the cipher rejects (length or padding).
#[verifier::external_body]
fn aes_decrypt_bytes(key: &[u8; 16], cipher: &[u8]) -> (r: Result<Vec<u8>, Error>)
    ensures
        match r {
            Ok(p) => aes_ecb_decrypt(key@, cipher@) == Some(p@),
            Err(e) => aes_ecb_decrypt(key@, cipher@) is None && e == Error::Tamper,
        },
{
    match soft_aes::aes::aes_dec_ecb(cipher, key, Some("PKCS7")) {
        Ok(p) => Ok(p),
        Err(_) => Err(Error::Tamper),
    }
}

/// Relies on base64's GeneralPurpose engine with a custom alphabet and no
/// padding: encoding is deterministic, emits ceil(4n/3) characters, and the
/// same engine's decode inverts it on the canonical unpadded output.
#[verifier::external_body]
fn base64_encode(data: &[u8]) -> (r: String)
    ensures
        r@ == b64_encode(data@),
        r@.len() == (data@.len() * 4 + 2) / 3,
        b64_decode(r@) == Some(data@),
{
    let alphabet = base64::alphabet::Alphabet::new(B64_ALPHABET).unwrap();
    let engine = base64::engine::general_purpose::GeneralPurpose::new(
        &alphabet,
        base64::engine::general_purpose::NO_PAD,
    );
    base64::Engine::encode(&engine, data)
}

/// Relies on the same base64 engine: decoding is deterministic and fails
/// exactly on text that is not a valid encoding.
#[verifier::external_body]
fn base64_decode(s: &str) -> (r: Result<Vec<u8>, Error>)
    ensures
        match r {
            Ok(v) => b64_decode(s@) == Some(v@),
            Err(e) => b64_decode(s@) is None && e == Error::Tamper,
        },
{
    let alphabet = base64::alphabet::Alphabet::new(B64_ALPHABET).unwrap();
    let engine = base64::engine::general_purpose::GeneralPurpose::new(
        &alphabet,
        base64::engine::general_purpose::NO_PAD,
    );
    match base64::Engine::decode(&engine, s) {
        Ok(v) => Ok(v),
        Err(_) => Err(Error::Tamper),
    }
}

/// Relies on String::from_utf8: succeeds exactly on valid UTF-8 and returns
/// the string holding those bytes.
#[verifier::external_body]
fn bytes_to_string(v: Vec<u8>) -> (r: Result<String, Error>)
    ensures
        match r {
            Ok(s) => valid_utf8(v@) && encode_utf8(s@) == v@,
            Err(e) => !valid_utf8(v@) && e == Error::Tamper,
        },
{
    match String::from_utf8(v) {
        Ok(s) => Ok(s),
        Err(_) => Err(Error::Tamper),
    }
}

/// The ciphertext token of a plaintext string: magic prefix, then the
/// encoded ciphertext of its UTF-8 bytes.
pub open spec fn spec_token(key: Seq<u8>, s: Seq<char>) -> Seq<char> {
    "a"@ + b64_encode(aes_ecb_encrypt(key, encode_utf8(s)))
}

/// What unwrapping and decrypting a token yields: `None` on a missing
/// prefix, malformed encoding, rejected ciphertext, or invalid UTF-8.
pub open spec fn spec_detoken(key: Seq<u8>, t: Seq<char>) -> Option<Seq<char>> {
    if !has_magic_prefix(t) {
        None
    } else {
        match b64_decode(t.skip(1)) {
            None => None,
            Some(c) => match aes_ecb_decrypt(key, c) {
                None => None,
                Some(p) => if valid_utf8(p) {
                    Some(decode_utf8(p))
                } else {
                    None
                },
            },
        }
    }
}

/// Every token carries the magic prefix.
pub proof fn lemma_token_has_prefix(key: Seq<u8>, s: Seq<char>)
    ensures
        has_magic_prefix(spec_token(key, s)),
{
    reveal_strlit("a");
}

/// Tokens are deterministic: any two results of encrypting the same
/// plaintext under the same key are the same text. This holds because the
/// cipher and the codec depend on the key and the plaintext alone.
pub proof fn lemma_token_deterministic(key: Seq<u8>, s: Seq<char>, t1: Seq<char>, t2: Seq<char>)
    requires
        t1 == spec_token(key, s),
        t2 == spec_token(key, s),
    ensures
        t1 == t2,
{
}

/// An encrypted property pair. The reserved `uid` and `hash` bookkeeping
/// pairs stay plaintext — the backend must match and return them as they
/// are, and the magic prefix keeps them apart from tokens — while every
/// user pair has key and value tokenized.
pub open spec fn spec_enc_prop(key: Seq<u8>, p: (Seq<char>, Seq<char>)) -> (Seq<char>, Seq<char>) {
    if is_reserved_key(p.0) {
        p
    } else {
        (spec_token(key, p.0), spec_token(key, p.1))
    }
}

/// An encrypted entity: every label and every non-reserved property pair
/// replaced by tokens.
pub open spec fn spec_enc_entity(key: Seq<u8>, e: EntityView) -> EntityView {
    EntityView {
        var_name: e.var_name,
        labels: e.labels.map_values(|l: Seq<char>| spec_token(key, l)),
        properties: e.properties.map_values(|p: (Seq<char>, Seq<char>)| spec_enc_prop(key, p)),
    }
}

/// An encrypted item: labels, keys and values become tokens; variable
/// names and the reserved bookkeeping keys stay.
pub open spec fn spec_enc_item(key: Seq<u8>, it: ItemView) -> ItemView {
    match it {
        ItemView::Var(v) => ItemView::Var(v),
        ItemView::VarWithLabel(v, l) => ItemView::VarWithLabel(v, spec_token(key, l)),
        ItemView::VarWithKey(v, k) => if is_reserved_key(k) {
            ItemView::VarWithKey(v, k)
        } else {
            ItemView::VarWithKey(v, spec_token(key, k))
        },
        ItemView::VarWithKeyValue(v, k, val) => if is_reserved_key(k) {
            ItemView::VarWithKeyValue(v, k, val)
        } else {
            ItemView::VarWithKeyValue(v, spec_token(key, k), spec_token(key, val))
        },
    }
}

pub open spec fn spec_enc_items(key: Seq<u8>, items: Seq<ItemView>) -> Seq<ItemView> {
    items.map_values(|it: ItemView| spec_enc_item(key, it))
}

pub open spec fn spec_enc_opt_entity(key: Seq<u8>, e: Option<EntityView>) -> Option<EntityView> {
    match e {
        None => None,
        Some(ev) => Some(spec_enc_entity(key, ev)),
    }
}

pub open spec fn spec_enc_opt_items(key: Seq<u8>, l: Option<Seq<ItemView>>) -> Option<
    Seq<ItemView>,
> {
    match l {
        None => None,
        Some(items) => Some(spec_enc_items(key, items)),
    }
}

/// Whether every entry of a DELETE list is a bare variable reference.
pub open spec fn spec_all_vars(items: Seq<ItemView>) -> bool {
    forall|i: int| 0 <= i < items.len() ==> (#[trigger] items[i]) is Var
}

/// Whether a query's DELETE list, if any, holds only variable references.
pub open spec fn spec_delete_list_plain(q: QueryView) -> bool {
    match q.delete_list {
        None => true,
        Some((items, _)) => spec_all_vars(items),
    }
}

/// The encrypted form of a query: entities and item lists tokenized, the
/// DELETE list and all flags untouched.
pub open spec fn spec_enc_query(key: Seq<u8>, q: QueryView) -> QueryView {
    QueryView {
        node: spec_enc_opt_entity(key, q.node),
        relation: spec_enc_opt_entity(key, q.relation),
        next_node: spec_enc_opt_entity(key, q.next_node),
        use_match: q.use_match,
        use_create: q.use_create,
        return_list: spec_enc_opt_items(key, q.return_list),
        set_list: spec_enc_opt_items(key, q.set_list),
        remove_list: spec_enc_opt_items(key, q.remove_list),
        delete_list: q.delete_list,
        find_shortest_path: q.find_shortest_path,
    }
}

/// The decrypted strings of a sequence of tokens, or `None` when any fails.
pub open spec fn spec_dec_strings(key: Seq<u8>, s: Seq<Seq<char>>) -> Option<Seq<Seq<char>>> {
    if exists|i: int| 0 <= i < s.len() && spec_detoken(key, #[trigger] s[i]) is None {
        None
    } else {
        Some(s.map_values(|x: Seq<char>| spec_detoken(key, x)->Some_0))
    }
}

/// The decrypted form of one returned property pair: the reserved `uid`
/// and `hash` pairs pass through unchanged — they are stored plaintext —
/// while every other pair must detokenize.
pub open spec fn spec_dec_prop(key: Seq<u8>, p: (Seq<char>, Seq<char>)) -> Option<
    (Seq<char>, Seq<char>),
> {
    if is_reserved_key(p.0) {
        Some(p)
    } else {
        match (spec_detoken(key, p.0), spec_detoken(key, p.1)) {
            (Some(k), Some(v)) => Some((k, v)),
            _ => None,
        }
    }
}

/// The decrypted pairs of a returned property list, or `None` when any fails.
pub open spec fn spec_dec_props(key: Seq<u8>, s: Seq<(Seq<char>, Seq<char>)>) -> Option<
    Seq<(Seq<char>, Seq<char>)>,
> {
    if exists|i: int| 0 <= i < s.len() && spec_dec_prop(key, #[trigger] s[i]) is None {
        None
    } else {
        Some(s.map_values(|p: (Seq<char>, Seq<char>)| spec_dec_prop(key, p)->Some_0))
    }
}

/// The decrypted form of a returned entity, or `None` when any token fails.
pub open spec fn spec_dec_inner(key: Seq<u8>, iv: InnerView) -> Option<InnerView> {
    match (spec_dec_strings(key, iv.labels), spec_dec_props(key, iv.properties)) {
        (Some(labels), Some(properties)) => Some(InnerView { labels, properties }),
        _ => None,
    }
}

/// The deterministic encryption layer: a process-wide 16-byte key.
pub struct Crypto {
    key: [u8; 16],
}

impl View for Crypto {
    type V = Seq<u8>;

    closed spec fn view(&self) -> Seq<u8> {
        self.key@
    }
}

impl Crypto {
    /// An encryption layer over the given key.
    pub fn new(key: [u8; 16]) -> (res: Self)
        ensures
            res@ == key@,
    {
        Crypto { key }
    }

    /// Encrypts raw bytes with the deterministic cipher; decryption under
    /// the same key inverts it.
    pub fn encrypt(&self, plaintext: &[u8]) -> (r: Vec<u8>)
        ensures
            r@ == aes_ecb_encrypt(self@, plaintext@),
            aes_ecb_decrypt(self@, r@) == Some(plaintext@),
    {
        aes_encrypt_bytes(&self.key, plaintext)
    }

    /// Decrypts raw bytes; fails on ciphertext the cipher rejects.
    pub fn decrypt(&self, encrypted: &[u8]) -> (r: Result<Vec<u8>, Error>)
        ensures
            match r {
                Ok(p) => aes_ecb_decrypt(self@, encrypted@) == Some(p@),
                Err(e) => aes_ecb_decrypt(self@, encrypted@) is None && e == Error::Tamper,
            },
    {
        aes_decrypt_bytes(&self.key, encrypted)
    }

    /// Encodes bytes in the proxy's URL-safe alphabet; decoding inverts it.
    pub fn encode(&self, data: &[u8]) -> (r: String)
        ensures
            r@ == b64_encode(data@),
            b64_decode(r@) == Some(data@),
    {
        base64_encode(data)
    }

    /// Decodes text in the proxy's URL-safe alphabet.
    pub fn decode(&self, data: &str) -> (r: Result<Vec<u8>, Error>)
        ensures
            match r {
                Ok(v) => b64_decode(data@) == Some(v@),
                Err(e) => b64_decode(data@) is None && e == Error::Tamper,
            },
    {
        base64_decode(data)
    }

    /// Turns a plaintext string into its ciphertext token.
    pub fn wrap_token(&self, plain: &str) -> (r: String)
        ensures
            r@ == spec_token(self@, plain@),
            spec_detoken(self@, r@) == Some(plain@),
    {
        let bytes = plain.as_bytes();
        let cipher = aes_encrypt_bytes(&self.key, bytes);
        let encoded = base64_encode(cipher.as_slice());
        let mut res = String::from_str("a");
        res.append(encoded.as_str());
        proof {
            broadcast use vstd::utf8::encode_utf8_decode_utf8;
            broadcast use vstd::utf8::encode_utf8_valid_utf8;

            reveal_strlit("a");
            assert(has_magic_prefix(res@));
            assert(res@.skip(1) =~= encoded@);
            assert(bytes@ == encode_utf8(plain@));
            assert(b64_decode(res@.skip(1)) == Some(cipher@));
            assert(aes_ecb_decrypt(self@, cipher@) == Some(bytes@));
            assert(valid_utf8(bytes@));
            assert(decode_utf8(bytes@) == plain@);
        }
        res
    }

    /// Turns a ciphertext token back into its plaintext string; any
    /// malformed token surfaces as tampering.
    pub fn unwrap_token(&self, token: &str) -> (r: Result<String, Error>)
        ensures
            match r {
                Ok(p) => spec_detoken(self@, token@) == Some(p@),
                Err(e) => spec_detoken(self@, token@) is None && e == Error::Tamper,
            },
    {
        broadcast use vstd::utf8::encode_utf8_decode_utf8;

        let len = token.unicode_len();
        if len == 0 {
            return Err(Error::Tamper);
        }
        let first = token.get_char(0);
        if first != crate::MAGIC_PREFIX_CHAR {
            return Err(Error::Tamper);
        }
        let rest = token.substring_char(1, len);
        let decoded = match base64_decode(rest) {
            Ok(v) => v,
            Err(e) => {
                proof {
                    assert(token@.skip(1) =~= rest@);
                }
                return Err(e);
            },
        };
        proof {
            assert(token@.skip(1) =~= rest@);
        }
        let plain_bytes = match aes_decrypt_bytes(&self.key, decoded.as_slice()) {
            Ok(p) => p,
            Err(e) => {
                return Err(e);
            },
        };
        bytes_to_string(plain_bytes)
    }

    fn enc_string(&self, plain: &String) -> (r: String)
        ensures
            r@ == spec_token(self@, plain@),
    {
        self.wrap_token(plain.as_str())
    }

    fn enc_entity(&self, e: &Node) -> (r: Node)
        ensures
            r@ == spec_enc_entity(self@, e@),
    {
        let mut labels: Vec<String> = Vec::new();
        let mut i: usize = 0;
        while i < e.labels.len()
            invariant
                0 <= i <= e.labels.len(),
                labels.deep_view() =~= e@.labels.subrange(0, i as int).map_values(
                    |l: Seq<char>| spec_token(self@, l),
                ),
            decreases e.labels.len() - i,
        {
            let ghost prev = labels.deep_view();
            labels.push(self.enc_string(&e.labels[i]));
            proof {
                assert(labels.deep_view() =~= prev.push(spec_token(self@, e@.labels[i as int])));
                assert(labels.deep_view() =~= e@.labels.subrange(0, i + 1 as int).map_values(
                    |l: Seq<char>| spec_token(self@, l),
                ));
            }
            i = i + 1;
        }
        let mut properties: Vec<(String, String)> = Vec::new();
        let mut j: usize = 0;
        while j < e.properties.len()
            invariant
                0 <= j <= e.properties.len(),
                labels.deep_view() =~= e@.labels.subrange(0, e.labels.len() as int).map_values(
                    |l: Seq<char>| spec_token(self@, l),
                ),
                properties.deep_view() =~= e@.properties.subrange(0, j as int).map_values(
                    |p: (Seq<char>, Seq<char>)| spec_enc_prop(self@, p),
                ),
            decreases e.properties.len() - j,
        {
            let ghost prev = properties.deep_view();
            let p = &e.properties[j];
            let reserved = str_eq(p.0.as_str(), UID_KEY) || str_eq(p.0.as_str(), HASH_KEY);
            if reserved {
                properties.push((p.0.clone(), p.1.clone()));
            } else {
                let k = self.enc_string(&p.0);
                let v = self.enc_string(&p.1);
                properties.push((k, v));
            }
            proof {
                assert(properties.deep_view() =~= prev.push(
                    spec_enc_prop(self@, e@.properties[j as int]),
                ));
                assert(properties.deep_view() =~= e@.properties.subrange(0, j + 1 as int)
                    .map_values(|p: (Seq<char>, Seq<char>)| spec_enc_prop(self@, p)));
            }
            j = j + 1;
        }
        let var_name = crate::util::clone_opt_string(&e.var_name);
        proof {
            assert(e@.labels.subrange(0, e.labels.len() as int) =~= e@.labels);
            assert(e@.properties.subrange(0, e.properties.len() as int) =~= e@.properties);
        }
        Node { var_name, labels, properties }
    }

    fn enc_opt_entity(&self, e: &Option<Node>) -> (r: Option<Node>)
        ensures
            r.deep_view() == spec_enc_opt_entity(self@, e.deep_view()),
    {
        match e {
            Some(n) => Some(self.enc_entity(n)),
            None => None,
        }
    }

    fn enc_item(&self, it: &Item) -> (r: Item)
        ensures
            r@ == spec_enc_item(self@, it@),
    {
        match it {
            Item::Var(v) => Item::Var(v.clone()),
            Item::VarWithLabel(v, l) => Item::VarWithLabel(v.clone(), self.enc_string(l)),
            Item::VarWithKey(v, k) => {
                if str_eq(k.as_str(), UID_KEY) || str_eq(k.as_str(), HASH_KEY) {
                    Item::VarWithKey(v.clone(), k.clone())
                } else {
                    Item::VarWithKey(v.clone(), self.enc_string(k))
                }
            },
            Item::VarWithKeyValue(v, k, val) => {
                if str_eq(k.as_str(), UID_KEY) || str_eq(k.as_str(), HASH_KEY) {
                    Item::VarWithKeyValue(v.clone(), k.clone(), val.clone())
                } else {
                    Item::VarWithKeyValue(v.clone(), self.enc_string(k), self.enc_string(val))
                }
            },
        }
    }

    fn enc_items(&self, items: &Vec<Item>) -> (r: Vec<Item>)
        ensures
            r.deep_view() == spec_enc_items(self@, items.deep_view()),
    {
        let mut out: Vec<Item> = Vec::new();
        let mut i: usize = 0;
        while i < items.len()
            invariant
                0 <= i <= items.len(),
                out.deep_view() =~= spec_enc_items(self@, items.deep_view().subrange(0, i as int)),
            decreases items.len() - i,
        {
            let ghost prev = out.deep_view();
            out.push(self.enc_item(&items[i]));
            proof {
                assert(out.deep_view() =~= prev.push(
                    spec_enc_item(self@, items.deep_view()[i as int]),
                ));
                assert(out.deep_view() =~= spec_enc_items(
                    self@,
                    items.deep_view().subrange(0, i + 1 as int),
                ));
            }
            i = i + 1;
        }
        proof {
            assert(items.deep_view().subrange(0, items.len() as int) =~= items.deep_view());
        }
        out
    }

    fn enc_opt_items(&self, items: &Option<Vec<Item>>) -> (r: Option<Vec<Item>>)
        ensures
            r.deep_view() == spec_enc_opt_items(self@, items.deep_view()),
    {
        match items {
            Some(l) => Some(self.enc_items(l)),
            None => None,
        }
    }

    /// Encrypts a query in place: every label, key and value in the node,
    /// relation, next node and the RETURN/SET/REMOVE lists becomes a token;
    /// variable names and flags stay. A DELETE list may hold only bare
    /// variable references; anything else is rejected.
    pub fn enc_query(&self, query: &mut CypherQuery) -> (r: Result<(), Error>)
        ensures
            final(query)@ == spec_enc_query(self@, old(query)@),
            r is Ok <==> spec_delete_list_plain(old(query)@),
            r is Err ==> r->Err_0 == Error::InvalidQuery,
    {
        query.node = self.enc_opt_entity(&query.node);
        query.relation = self.enc_opt_entity(&query.relation);
        query.next_node = self.enc_opt_entity(&query.next_node);
        query.return_list = self.enc_opt_items(&query.return_list);
        query.set_list = self.enc_opt_items(&query.set_list);
        query.remove_list = self.enc_opt_items(&query.remove_list);
        proof {
            assert(query@ =~= spec_enc_query(self@, old(query)@));
        }

        match &query.delete_list {
            None => Ok(()),
            Some((list, _)) => {
                proof {
                    assert(Some((list.deep_view(), old(query)@.delete_list->Some_0.1))
                        == old(query)@.delete_list);
                }
                let mut i: usize = 0;
                while i < list.len()
                    invariant
                        0 <= i <= list.len(),
                        query@ == spec_enc_query(self@, old(query)@),
                        old(query)@.delete_list is Some,
                        list.deep_view() == old(query)@.delete_list->Some_0.0,
                        forall|j: int| 0 <= j < i ==> (#[trigger] list.deep_view()[j]) is Var,
                    decreases list.len() - i,
                {
                    match &list[i] {
                        Item::Var(_) => (),
                        _ => {
                            proof {
                                assert(!((list.deep_view()[i as int]) is Var));
                            }
                            return Err(Error::InvalidQuery);
                        },
                    }
                    i = i + 1;
                }
                Ok(())
            },
        }
    }

    fn dec_string(&self, token: &String) -> (r: Result<String, Error>)
        ensures
            match r {
                Ok(p) => spec_detoken(self@, token@) == Some(p@),
                Err(e) => spec_detoken(self@, token@) is None && e == Error::Tamper,
            },
    {
        self.unwrap_token(token.as_str())
    }

    fn dec_inner(&self, inner: &Inner) -> (r: Result<Inner, Error>)
        ensures
            match r {
                Ok(plain) => spec_dec_inner(self@, inner@) == Some(plain@),
                Err(e) => spec_dec_inner(self@, inner@) is None && e == Error::Tamper,
            },
    {
        let mut labels: Vec<String> = Vec::new();
        let mut i: usize = 0;
        while i < inner.labels.len()
            invariant
                0 <= i <= inner.labels.len(),
                forall|j: int|
                    0 <= j < i ==> spec_detoken(self@, #[trigger] inner@.labels[j]) is Some,
                labels.deep_view() =~= inner@.labels.subrange(0, i as int).map_values(
                    |x: Seq<char>| spec_detoken(self@, x)->Some_0,
                ),
            decreases inner.labels.len() - i,
        {
            let ghost prev = labels.deep_view();
            match self.dec_string(&inner.labels[i]) {
                Ok(p) => {
                    labels.push(p);
                },
                Err(e) => {
                    return Err(e);
                },
            }
            proof {
                assert(labels.deep_view() =~= prev.push(
                    spec_detoken(self@, inner@.labels[i as int])->Some_0,
                ));
                assert(labels.deep_view() =~= inner@.labels.subrange(0, i + 1 as int).map_values(
                    |x: Seq<char>| spec_detoken(self@, x)->Some_0,
                ));
            }
            i = i + 1;
        }
        let mut properties: Vec<(String, String)> = Vec::new();
        let mut j: usize = 0;
        while j < inner.properties.len()
            invariant
                0 <= j <= inner.properties.len(),
                forall|l: int|
                    0 <= l < inner.labels.len() ==> spec_detoken(
                        self@,
                        #[trigger] inner@.labels[l],
                    ) is Some,
                labels.deep_view() =~= inner@.labels.map_values(
                    |x: Seq<char>| spec_detoken(self@, x)->Some_0,
                ),
                forall|l: int|
                    0 <= l < j ==> spec_dec_prop(self@, #[trigger] inner@.properties[l]) is Some,
                properties.deep_view() =~= inner@.properties.subrange(0, j as int).map_values(
                    |p: (Seq<char>, Seq<char>)| spec_dec_prop(self@, p)->Some_0,
                ),
            decreases inner.properties.len() - j,
        {
            let ghost prev = properties.deep_view();
            let p = &inner.properties[j];
            let reserved = str_eq(p.0.as_str(), UID_KEY) || str_eq(p.0.as_str(), HASH_KEY);
            if reserved {
                properties.push((p.0.clone(), p.1.clone()));
            } else {
                let k = match self.dec_string(&p.0) {
                    Ok(x) => x,
                    Err(e) => {
                        proof {
                            assert(spec_dec_prop(self@, inner@.properties[j as int]) is None);
                        }
                        return Err(e);
                    },
                };
                let v = match self.dec_string(&p.1) {
                    Ok(x) => x,
                    Err(e) => {
                        proof {
                            assert(spec_dec_prop(self@, inner@.properties[j as int]) is None);
                        }
                        return Err(e);
                    },
                };
                properties.push((k, v));
            }
            proof {
                assert(properties.deep_view() =~= prev.push(
                    spec_dec_prop(self@, inner@.properties[j as int])->Some_0,
                ));
                assert(properties.deep_view() =~= inner@.properties.subrange(0, j + 1 as int)
                    .map_values(|p: (Seq<char>, Seq<char>)| spec_dec_prop(self@, p)->Some_0));
            }
            j = j + 1;
        }
        proof {
            assert(inner@.labels.subrange(0, inner.labels.len() as int) =~= inner@.labels);
            assert(inner@.properties.subrange(0, inner.properties.len() as int)
                =~= inner@.properties);
        }
        Ok(Inner { labels, properties })
    }

    /// Decrypts a returned row and verifies each entity's integrity: the
    /// entity must carry `uid` and `hash`, and the stored hash must equal
    /// the digest recomputed over the decrypted content. Every failure,
    /// cryptographic or integrity, surfaces as tampering.
    pub fn decrypt_and_verify(&self, enc_row: Row) -> (r: Result<Row, Error>)
        ensures
            match r {
                Ok(plain) => plain@.len() == enc_row@.len() && forall|i: int|
                    0 <= i < enc_row@.len() ==> spec_dec_inner(self@, #[trigger] enc_row@[i])
                        == Some(plain@[i]) && crate::digest::inner_verified(plain@[i]),
                Err(e) => e == Error::Tamper && exists|i: int|
                    0 <= i < enc_row@.len() && (spec_dec_inner(self@, #[trigger] enc_row@[i])
                        is None || !crate::digest::inner_verified(
                        spec_dec_inner(self@, enc_row@[i])->Some_0,
                    )),
            },
    {
        let inners = enc_row.inners();
        let mut out = Row::new_empty();
        let mut i: usize = 0;
        while i < inners.len()
            invariant
                0 <= i <= inners.len(),
                inners.deep_view() == enc_row@,
                out@.len() == i,
                forall|j: int|
                    0 <= j < i ==> spec_dec_inner(self@, #[trigger] enc_row@[j]) == Some(out@[j])
                        && crate::digest::inner_verified(out@[j]),
            decreases inners.len() - i,
        {
            let plain = match self.dec_inner(&inners[i]) {
                Ok(p) => p,
                Err(e) => {
                    proof {
                        assert(spec_dec_inner(self@, enc_row@[i as int]) is None);
                    }
                    return Err(e);
                },
            };
            if !crate::digest::verify_inner(&plain) {
                proof {
                    assert(spec_dec_inner(self@, enc_row@[i as int]) == Some(plain@));
                    assert(!crate::digest::inner_verified(
                        spec_dec_inner(self@, enc_row@[i as int])->Some_0,
                    ));
                }
                return Err(Error::Tamper);
            }
            out.push(plain);
            i = i + 1;
        }
        Ok(out)
    }
}


/// A ciphertext token never collides with a reserved key: it begins with
/// the magic prefix, the reserved keys do not.
pub proof fn lemma_token_not_reserved(key: Seq<u8>, x: Seq<char>, k: Seq<char>)
    requires
        is_reserved_key(k),
    ensures
        spec_token(key, x) != k,
{
    reveal_strlit("a");
    reveal_strlit("uid");
    reveal_strlit("hash");
    lemma_token_has_prefix(key, x);
    assert(spec_token(key, x)[0] == 'a');
}

/// Encrypting a property list leaves every reserved-key count unchanged:
/// reserved pairs pass through and tokenized keys never look reserved.
pub proof fn lemma_count_key_enc(key: Seq<u8>, props: Seq<(Seq<char>, Seq<char>)>, k: Seq<char>)
    requires
        is_reserved_key(k),
    ensures
        crate::digest::count_key(
            props.map_values(|p: (Seq<char>, Seq<char>)| spec_enc_prop(key, p)),
            k,
        ) == crate::digest::count_key(props, k),
    decreases props.len(),
{
    let encf = |p: (Seq<char>, Seq<char>)| spec_enc_prop(key, p);
    if props.len() > 0 {
        lemma_count_key_enc(key, props.drop_last(), k);
        assert(props.map_values(encf).drop_last() =~= props.drop_last().map_values(encf));
        assert(props.map_values(encf).last() == encf(props.last()));
        if !is_reserved_key(props.last().0) {
            lemma_token_not_reserved(key, props.last().0, k);
        }
    } else {
        assert(props.map_values(encf).len() == 0);
    }
}

} // verus!
