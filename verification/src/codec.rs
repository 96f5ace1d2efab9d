//! The persisted queue format: the pending keys, oldest first, written as
//! a bracketed, comma-separated list of double-quoted strings, with `\`
//! escaping quotes and backslashes. Re-serialized after every drain pass;
//! decoding reproduces the same ordered sequence of keys.

use vstd::prelude::*;

verus! {

/// `c` as it appears inside a quoted entry: quotes and backslashes are
/// preceded by a backslash.
pub open spec fn esc_char(c: char) -> Seq<char> {
    if c == '"' || c == '\\' {
        seq!['\\', c]
    } else {
        seq![c]
    }
}

/// `s` with every character escaped as needed.
pub open spec fn esc(s: Seq<char>) -> Seq<char>
    decreases s.len(),
{
    if s.len() == 0 {
        Seq::empty()
    } else {
        esc_char(s[0]) + esc(s.skip(1))
    }
}

/// One key as a quoted entry.
pub open spec fn enc_entry(s: Seq<char>) -> Seq<char> {
    seq!['"'] + esc(s) + seq!['"']
}

/// The quoted entries, comma-separated.
pub open spec fn enc_items(keys: Seq<Seq<char>>) -> Seq<char>
    decreases keys.len(),
{
    if keys.len() == 0 {
        Seq::empty()
    } else if keys.len() == 1 {
        enc_entry(keys[0])
    } else {
        enc_entry(keys[0]) + seq![','] + enc_items(keys.skip(1))
    }
}

/// The serialized form of a key list.
pub open spec fn spec_encode(keys: Seq<Seq<char>>) -> Seq<char> {
    seq!['['] + enc_items(keys) + seq![']']
}

/// Reads one entry body up to its closing quote: the unescaped key and
/// what follows the quote.
pub open spec fn parse_entry(s: Seq<char>) -> Option<(Seq<char>, Seq<char>)>
    decreases s.len(),
{
    if s.len() == 0 {
        None
    } else if s[0] == '"' {
        Some((Seq::empty(), s.skip(1)))
    } else if s[0] == '\\' {
        if s.len() < 2 {
            None
        } else {
            match parse_entry(s.skip(2)) {
                Some((k, r)) => Some((seq![s[1]] + k, r)),
                None => None,
            }
        }
    } else {
        match parse_entry(s.skip(1)) {
            Some((k, r)) => Some((seq![s[0]] + k, r)),
            None => None,
        }
    }
}

/// Reads the items of a list after the opening bracket, up to and
/// including the closing bracket: the keys and what follows the bracket.
/// `fuel` bounds the number of items and only needs to exceed it.
pub open spec fn parse_items(s: Seq<char>, fuel: nat) -> Option<(Seq<Seq<char>>, Seq<char>)>
    decreases fuel,
{
    if fuel == 0 || s.len() == 0 {
        None
    } else if s[0] == ']' {
        Some((Seq::empty(), s.skip(1)))
    } else if s[0] == '"' {
        match parse_entry(s.skip(1)) {
            None => None,
            Some((k, r)) => {
                if r.len() == 0 {
                    None
                } else if r[0] == ']' {
                    Some((seq![k], r.skip(1)))
                } else if r[0] == ',' {
                    match parse_items(r.skip(1), (fuel - 1) as nat) {
                        None => None,
                        Some((ks, r2)) => {
                            if ks.len() == 0 {
                                None
                            } else {
                                Some((seq![k] + ks, r2))
                            }
                        },
                    }
                } else {
                    None
                }
            },
        }
    } else {
        None
    }
}

/// The key list a serialized form stands for, if it is one.
pub open spec fn spec_decode(s: Seq<char>) -> Option<Seq<Seq<char>>> {
    if s.len() == 0 || s[0] != '[' {
        None
    } else {
        match parse_items(s.skip(1), s.len() as nat) {
            None => None,
            Some((keys, r)) => {
                if r.len() == 0 {
                    Some(keys)
                } else {
                    None
                }
            },
        }
    }
}

/// Escaping distributes over concatenation.
proof fn lemma_esc_concat(a: Seq<char>, b: Seq<char>)
    ensures
        esc(a + b) == esc(a) + esc(b),
    decreases a.len(),
{
    if a.len() == 0 {
        assert(a + b =~= b);
        assert(esc(a) + esc(b) =~= esc(b));
    } else {
        lemma_esc_concat(a.skip(1), b);
        assert((a + b).skip(1) =~= a.skip(1) + b);
        assert(esc(a + b) =~= esc(a) + esc(b));
    }
}

/// Reading an escaped key followed by its closing quote gives back the
/// key and the remainder.
proof fn lemma_parse_entry_inverts(k: Seq<char>, rest: Seq<char>)
    ensures
        parse_entry(esc(k) + seq!['"'] + rest) == Some((k, rest)),
    decreases k.len(),
{
    let s = esc(k) + seq!['"'] + rest;
    if k.len() == 0 {
        assert(s =~= seq!['"'] + rest);
        assert(s[0] == '"');
        assert(s.skip(1) =~= rest);
    } else {
        let c = k[0];
        lemma_parse_entry_inverts(k.skip(1), rest);
        let tail = esc(k.skip(1)) + seq!['"'] + rest;
        if c == '"' || c == '\\' {
            assert(s =~= seq!['\\', c] + tail);
            assert(s[0] == '\\');
            assert(s[1] == c);
            assert(s.len() >= 2);
            assert(s.skip(2) =~= tail);
            assert(seq![c] + k.skip(1) =~= k);
        } else {
            assert(s =~= seq![c] + tail);
            assert(s[0] == c);
            assert(s.skip(1) =~= tail);
            assert(seq![c] + k.skip(1) =~= k);
        }
    }
}

/// A successful entry read consumes at least one character.
proof fn lemma_parse_entry_consumes(s: Seq<char>)
    ensures
        parse_entry(s) matches Some((k, r)) ==> r.len() < s.len(),
    decreases s.len(),
{
    if s.len() == 0 {
    } else if s[0] == '"' {
    } else if s[0] == '\\' {
        if s.len() >= 2 {
            lemma_parse_entry_consumes(s.skip(2));
        }
    } else {
        lemma_parse_entry_consumes(s.skip(1));
    }
}

/// Any two sufficient fuels read the items the same way.
proof fn lemma_parse_items_fuel(s: Seq<char>, f1: nat, f2: nat)
    requires
        f1 > s.len(),
        f2 > s.len(),
    ensures
        parse_items(s, f1) == parse_items(s, f2),
    decreases s.len(),
{
    if s.len() == 0 {
    } else if s[0] == ']' {
    } else if s[0] == '"' {
        match parse_entry(s.skip(1)) {
            None => {
            },
            Some((k, r)) => {
                lemma_parse_entry_consumes(s.skip(1));
                if r.len() > 0 && r[0] == ',' {
                    assert(r.skip(1).len() < s.len());
                    lemma_parse_items_fuel(r.skip(1), (f1 - 1) as nat, (f2 - 1) as nat);
                }
            },
        }
    } else {
    }
}

/// Reading the serialized items followed by the closing bracket gives
/// back the keys and the remainder, for any sufficient fuel.
proof fn lemma_parse_items_inverts(keys: Seq<Seq<char>>, rest: Seq<char>, fuel: nat)
    requires
        fuel > keys.len(),
    ensures
        parse_items(enc_items(keys) + seq![']'] + rest, fuel) == Some((keys, rest)),
    decreases keys.len(),
{
    let s = enc_items(keys) + seq![']'] + rest;
    if keys.len() == 0 {
        assert(s =~= seq![']'] + rest);
        assert(s[0] == ']');
        assert(s.skip(1) =~= rest);
        assert(Seq::<Seq<char>>::empty() =~= keys);
    } else if keys.len() == 1 {
        let k0 = keys[0];
        assert(s =~= seq!['"'] + (esc(k0) + seq!['"'] + (seq![']'] + rest)));
        assert(s[0] == '"');
        assert(s.skip(1) =~= esc(k0) + seq!['"'] + (seq![']'] + rest));
        lemma_parse_entry_inverts(k0, seq![']'] + rest);
        let r = seq![']'] + rest;
        assert(r[0] == ']');
        assert(r.skip(1) =~= rest);
        assert(seq![k0] =~= keys);
    } else {
        let k0 = keys[0];
        let tail = enc_items(keys.skip(1)) + seq![']'] + rest;
        assert(s =~= seq!['"'] + (esc(k0) + seq!['"'] + (seq![','] + tail)));
        assert(s[0] == '"');
        assert(s.skip(1) =~= esc(k0) + seq!['"'] + (seq![','] + tail));
        lemma_parse_entry_inverts(k0, seq![','] + tail);
        let r = seq![','] + tail;
        assert(r[0] == ',');
        assert(r.skip(1) =~= tail);
        lemma_parse_items_inverts(keys.skip(1), rest, (fuel - 1) as nat);
        assert(keys.skip(1).len() > 0);
        assert(seq![k0] + keys.skip(1) =~= keys);
    }
}

/// The serialized form is at least as long as the key list.
proof fn lemma_enc_items_len(keys: Seq<Seq<char>>)
    ensures
        enc_items(keys).len() >= 2 * keys.len() - 1,
    decreases keys.len(),
{
    if keys.len() > 1 {
        lemma_enc_items_len(keys.skip(1));
    }
}

fn escape_string(key: &String) -> (r: String)
    ensures
        r@ == esc(key@),
{
    let s = key.as_str();
    let n = s.unicode_len();
    let mut out = String::new();
    let mut i: usize = 0;
    while i < n
        invariant
            n == s@.len(),
            s@ == key@,
            i <= n,
            out@ == esc(key@.take(i as int)),
        decreases n - i,
    {
        let c = s.get_char(i);
        if c == '"' {
            out.append("\\\"");
        } else if c == '\\' {
            out.append("\\\\");
        } else {
            out.append(s.substring_char(i, i + 1));
        }
        proof {
            reveal_strlit("\\\"");
            reveal_strlit("\\\\");
            assert(s@.subrange(i as int, i + 1) =~= seq![c]);
            lemma_esc_concat(key@.take(i as int), seq![c]);
            assert(key@.take(i + 1) =~= key@.take(i as int) + seq![c]);
            assert(seq![c].skip(1) =~= Seq::<char>::empty());
            assert(esc(Seq::<char>::empty()) =~= Seq::<char>::empty());
            assert(esc(seq![c]) =~= esc_char(c) + esc(seq![c].skip(1)));
            assert(esc(seq![c]) =~= esc_char(c));
            assert(out@ =~= esc(key@.take(i + 1)));
        }
        i = i + 1;
    }
    proof {
        assert(key@.take(n as int) =~= key@);
    }
    out
}

fn encode_entry(key: &String) -> (r: String)
    ensures
        r@ == enc_entry(key@),
{
    let mut out = "\"".to_owned();
    let e = escape_string(key);
    out.append(e.as_str());
    out.append("\"");
    proof {
        reveal_strlit("\"");
        assert(out@ =~= enc_entry(key@));
    }
    out
}

fn encode_items(keys: &Vec<String>, i: usize) -> (r: String)
    requires
        i <= keys@.len(),
    ensures
        r@ == enc_items(keys.deep_view().skip(i as int)),
    decreases keys@.len() - i,
{
    let ghost dv = keys.deep_view();
    if i >= keys.len() {
        let r = String::new();
        proof {
            assert(dv.skip(i as int) =~= Seq::<Seq<char>>::empty());
            assert(r@ =~= enc_items(dv.skip(i as int)));
        }
        r
    } else {
        let mut out = encode_entry(&keys[i]);
        proof {
            assert(dv.skip(i as int)[0] == dv[i as int]);
            assert(dv[i as int] == keys@[i as int]@);
        }
        if i + 1 < keys.len() {
            out.append(",");
            let tail = encode_items(keys, i + 1);
            out.append(tail.as_str());
            proof {
                reveal_strlit(",");
                assert(dv.skip(i as int).skip(1) =~= dv.skip(i + 1));
                assert(dv.skip(i as int).len() >= 2);
                assert(","@ =~= seq![',']);
                assert(out@ =~= enc_entry(dv.skip(i as int)[0]) + seq![','] + enc_items(
                    dv.skip(i as int).skip(1),
                ));
            }
        } else {
            proof {
                assert(dv.skip(i as int).len() == 1);
            }
        }
        out
    }
}

/// Serializes the pending key list, oldest first.
pub fn encode_pending(keys: &Vec<String>) -> (r: String)
    ensures
        r@ == spec_encode(keys.deep_view()),
{
    let mut out = "[".to_owned();
    let items = encode_items(keys, 0);
    out.append(items.as_str());
    out.append("]");
    proof {
        reveal_strlit("[");
        reveal_strlit("]");
        assert(keys.deep_view().skip(0) =~= keys.deep_view());
        assert(out@ =~= spec_encode(keys.deep_view()));
    }
    out
}

fn parse_entry_exec(s: &str, pos: usize) -> (r: Option<(String, usize)>)
    requires
        pos <= s@.len(),
    ensures
        match r {
            None => parse_entry(s@.skip(pos as int)) is None,
            Some((k, p)) => pos < p <= s@.len() && parse_entry(s@.skip(pos as int)) == Some(
                (k@, s@.skip(p as int)),
            ),
        },
    decreases s@.len() - pos,
{
    let n = s.unicode_len();
    let ghost t = s@.skip(pos as int);
    if pos >= n {
        return None;
    }
    let c = s.get_char(pos);
    proof {
        assert(t[0] == c);
    }
    if c == '"' {
        let k = String::new();
        proof {
            assert(t.skip(1) =~= s@.skip(pos + 1));
        }
        return Some((k, pos + 1));
    }
    if c == '\\' {
        if pos + 1 >= n {
            proof {
                assert(t.len() < 2);
            }
            return None;
        }
        let c2 = s.get_char(pos + 1);
        proof {
            assert(t.len() >= 2);
            assert(t[1] == c2);
            assert(t.skip(2) =~= s@.skip(pos + 2));
        }
        match parse_entry_exec(s, pos + 2) {
            None => None,
            Some((k, p)) => {
                let mut out = s.substring_char(pos + 1, pos + 2).to_owned();
                out.append(k.as_str());
                proof {
                    assert(s@.subrange(pos + 1, pos + 2) =~= seq![c2]);
                    assert(out@ =~= seq![t[1]] + k@);
                }
                Some((out, p))
            },
        }
    } else {
        proof {
            assert(t.skip(1) =~= s@.skip(pos + 1));
        }
        match parse_entry_exec(s, pos + 1) {
            None => None,
            Some((k, p)) => {
                let mut out = s.substring_char(pos, pos + 1).to_owned();
                out.append(k.as_str());
                proof {
                    assert(s@.subrange(pos as int, pos + 1) =~= seq![c]);
                    assert(out@ =~= seq![t[0]] + k@);
                }
                Some((out, p))
            },
        }
    }
}

fn parse_items_exec(s: &str, pos: usize) -> (r: Option<(Vec<String>, usize)>)
    requires
        pos <= s@.len(),
    ensures
        match r {
            None => parse_items(s@.skip(pos as int), (s@.len() - pos + 1) as nat) is None,
            Some((v, p)) => pos < p <= s@.len() && parse_items(
                s@.skip(pos as int),
                (s@.len() - pos + 1) as nat,
            ) == Some((v.deep_view(), s@.skip(p as int))),
        },
    decreases s@.len() - pos,
{
    let n = s.unicode_len();
    let ghost t = s@.skip(pos as int);
    let ghost fuel = (s@.len() - pos + 1) as nat;
    if pos >= n {
        return None;
    }
    let c = s.get_char(pos);
    proof {
        assert(t[0] == c);
    }
    if c == ']' {
        let v: Vec<String> = Vec::new();
        proof {
            assert(t.skip(1) =~= s@.skip(pos + 1));
            assert(v.deep_view() =~= Seq::<Seq<char>>::empty());
        }
        return Some((v, pos + 1));
    }
    if c != '"' {
        return None;
    }
    proof {
        assert(t.skip(1) =~= s@.skip(pos + 1));
    }
    match parse_entry_exec(s, pos + 1) {
        None => None,
        Some((k, p)) => {
            let ghost rr = s@.skip(p as int);
            if p >= n {
                proof {
                    assert(rr.len() == 0);
                }
                return None;
            }
            let c2 = s.get_char(p);
            proof {
                assert(rr[0] == c2);
            }
            if c2 == ']' {
                let mut v: Vec<String> = Vec::new();
                v.push(k);
                proof {
                    assert(rr.skip(1) =~= s@.skip(p + 1));
                    assert(v.deep_view() =~= seq![v@[0]@]);
                }
                Some((v, p + 1))
            } else if c2 == ',' {
                proof {
                    assert(rr.skip(1) =~= s@.skip(p + 1));
                    lemma_parse_items_fuel(
                        s@.skip(p + 1),
                        (s@.len() - (p + 1) + 1) as nat,
                        (fuel - 1) as nat,
                    );
                }
                match parse_items_exec(s, p + 1) {
                    None => None,
                    Some((ks, p2)) => {
                        if ks.len() == 0 {
                            None
                        } else {
                            let ghost ksdv = ks.deep_view();
                            let ghost kold = ks@;
                            let mut v = ks;
                            v.insert(0, k);
                            proof {
                                assert forall|x: int|
                                    0 <= x < v.deep_view().len() implies v.deep_view()[x] == (
                                seq![k@] + ksdv)[x] by {
                                    assert(v.deep_view()[x] == v@[x]@);
                                    assert(v@ == kold.insert(0, k));
                                    if x > 0 {
                                        assert(v@[x] == kold[x - 1]);
                                        assert(ksdv[x - 1] == kold[x - 1]@);
                                    }
                                }
                                assert(v.deep_view() =~= seq![k@] + ksdv);
                            }
                            Some((v, p2))
                        }
                    },
                }
            } else {
                None
            }
        },
    }
}

/// Deserializes a pending key list; `None` when `s` is not the serialized
/// form of any key list.
pub fn decode_pending(s: &str) -> (r: Option<Vec<String>>)
    ensures
        match r {
            Some(v) => spec_decode(s@) == Some(v.deep_view()),
            None => spec_decode(s@) is None,
        },
{
    let n = s.unicode_len();
    if n == 0 {
        return None;
    }
    let c0 = s.get_char(0);
    if c0 != '[' {
        return None;
    }
    proof {
        assert((s@.len() - 1 + 1) as nat == s@.len() as nat);
    }
    match parse_items_exec(s, 1) {
        None => None,
        Some((v, p)) => {
            if p < n {
                proof {
                    assert(s@.skip(p as int).len() > 0);
                }
                None
            } else {
                proof {
                    assert(s@.skip(p as int).len() == 0);
                }
                Some(v)
            }
        },
    }
}

/// Decoding a serialized key list gives back exactly that list.
pub proof fn lemma_codec_round_trip(keys: Seq<Seq<char>>)
    ensures
        spec_decode(spec_encode(keys)) == Some(keys),
{
    let s = spec_encode(keys);
    assert(s[0] == '[');
    assert(s.skip(1) =~= enc_items(keys) + seq![']'] + Seq::<char>::empty());
    lemma_enc_items_len(keys);
    assert(s.len() > keys.len());
    lemma_parse_items_inverts(keys, Seq::empty(), s.len() as nat);
    assert(parse_items(s.skip(1), s.len() as nat) == Some((keys, Seq::<char>::empty())));
}

} // verus!
