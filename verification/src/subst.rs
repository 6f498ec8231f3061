//! Variable substitution in configuration text.
//!
//! Before the configuration is parsed, every occurrence of `${NAME}` (where
//! `NAME` is one or more word characters: letters, digits, underscore) is
//! replaced by the value bound to `NAME`; an unbound name is an error that
//! the embedding program treats as fatal. Text that does not form such a
//! reference, including an unterminated `${`, is copied unchanged. The
//! bindings (normally the process environment) are handed in as plain
//! values.

use vstd::prelude::*;

verus! {

/// A word byte: a letter, a digit, or an underscore.
pub open spec fn is_word_byte(b: u8) -> bool {
    (97 <= b <= 122) || (65 <= b <= 90) || (48 <= b <= 57) || b == 95
}

/// Length of the run of word bytes in `s` starting at `i`.
pub open spec fn word_run(s: Seq<u8>, i: int) -> int
    decreases s.len() - i,
{
    if i < 0 || i >= s.len() || !is_word_byte(s[i]) {
        0
    } else {
        1 + word_run(s, i + 1)
    }
}

/// Does a variable reference `${NAME}` stand at the head of `s`?
pub open spec fn var_at(s: Seq<u8>) -> bool {
    &&& s.len() >= 2
    &&& s[0] == 36
    &&& s[1] == 123
    &&& word_run(s, 2) >= 1
    &&& 2 + word_run(s, 2) < s.len()
    &&& s[2 + word_run(s, 2)] == 125
}

/// The name of the variable reference at the head of `s`.
pub open spec fn var_name(s: Seq<u8>) -> Seq<u8> {
    s.subrange(2, 2 + word_run(s, 2))
}

/// First-match lookup of `name` among the bindings.
pub open spec fn env_lookup(env: Seq<(Seq<u8>, Seq<u8>)>, name: Seq<u8>) -> Option<Seq<u8>>
    decreases env,
{
    if env.len() == 0 {
        None
    } else if env.first().0 == name {
        Some(env.first().1)
    } else {
        env_lookup(env.drop_first(), name)
    }
}

/// The substituted text: every `${NAME}` replaced by its binding, all other
/// bytes copied; the name of the first unbound reference otherwise.
pub open spec fn subst(s: Seq<u8>, env: Seq<(Seq<u8>, Seq<u8>)>) -> Result<Seq<u8>, Seq<u8>>
    decreases s.len(),
{
    if s.len() == 0 {
        Ok(Seq::empty())
    } else if var_at(s) {
        match env_lookup(env, var_name(s)) {
            Some(value) => match subst(s.skip(3 + word_run(s, 2)), env) {
                Ok(t) => Ok(value + t),
                Err(e) => Err(e),
            },
            None => Err(var_name(s)),
        }
    } else {
        match subst(s.skip(1), env) {
            Ok(t) => Ok(seq![s[0]] + t),
            Err(e) => Err(e),
        }
    }
}

/// Variable bindings as plain bytes, in lookup order.
pub struct EnvTable {
    pub entries: Vec<(Vec<u8>, Vec<u8>)>,
}

/// The model of the bindings.
pub open spec fn env_model(entries: Seq<(Vec<u8>, Vec<u8>)>) -> Seq<(Seq<u8>, Seq<u8>)> {
    entries.map_values(|p: (Vec<u8>, Vec<u8>)| (p.0@, p.1@))
}

/// Byte-for-byte equality of `a` and `b[lo..hi]`.
fn bytes_eq_range(a: &Vec<u8>, b: &Vec<u8>, lo: usize, hi: usize) -> (r: bool)
    requires
        lo <= hi <= b@.len(),
    ensures
        r == (a@ == b@.subrange(lo as int, hi as int)),
{
    if a.len() != hi - lo {
        proof {
            assert(a@ != b@.subrange(lo as int, hi as int));
        }
        return false;
    }
    let n = a.len();
    let mut i: usize = 0;
    while i < n
        invariant
            n == a@.len(),
            n == hi - lo,
            lo <= hi <= b@.len(),
            i <= n,
            forall|j: int| 0 <= j < i ==> a@[j] == b@[lo + j],
        decreases n - i,
    {
        if a[i] != b[lo + i] {
            proof {
                assert(b@.subrange(lo as int, hi as int)[i as int] == b@[lo + i]);
            }
            return false;
        }
        i += 1;
    }
    proof {
        assert(a@ =~= b@.subrange(lo as int, hi as int));
    }
    true
}

impl EnvTable {
    /// A table over the given bindings.
    pub fn new(entries: Vec<(Vec<u8>, Vec<u8>)>) -> (r: EnvTable)
        ensures
            r.entries == entries,
    {
        EnvTable { entries }
    }

    /// First-match lookup of the name standing at `input[lo..hi]`.
    fn lookup_range(&self, input: &Vec<u8>, lo: usize, hi: usize) -> (r: Option<&Vec<u8>>)
        requires
            lo <= hi <= input@.len(),
        ensures
            match r {
                Some(v) => env_lookup(env_model(self.entries@), input@.subrange(lo as int, hi as int))
                    == Some(v@),
                None => env_lookup(env_model(self.entries@), input@.subrange(lo as int, hi as int))
                    is None,
            },
    {
        let n = self.entries.len();
        let ghost name = input@.subrange(lo as int, hi as int);
        proof {
            assert(env_model(self.entries@).skip(0) =~= env_model(self.entries@));
        }
        let mut i: usize = 0;
        while i < n
            invariant
                n == self.entries@.len(),
                i <= n,
                lo <= hi <= input@.len(),
                name == input@.subrange(lo as int, hi as int),
                env_lookup(env_model(self.entries@), name) == env_lookup(
                    env_model(self.entries@).skip(i as int),
                    name,
                ),
            decreases n - i,
        {
            if bytes_eq_range(&self.entries[i].0, input, lo, hi) {
                proof {
                    assert(env_model(self.entries@).skip(i as int).first() == (
                        self.entries@[i as int].0@,
                        self.entries@[i as int].1@,
                    ));
                }
                return Some(&self.entries[i].1);
            }
            proof {
                assert(env_model(self.entries@).skip(i as int).first() == (
                    self.entries@[i as int].0@,
                    self.entries@[i as int].1@,
                ));
                assert(env_model(self.entries@).skip(i as int).drop_first() =~= env_model(
                    self.entries@,
                ).skip(i + 1));
            }
            i += 1;
        }
        proof {
            assert(env_model(self.entries@).skip(n as int).len() == 0);
        }
        None
    }
}

/// Substitute every `${NAME}` reference in `input` by its binding; an
/// unbound name is returned as the error.
pub fn substitute_env_vars(input: &Vec<u8>, env: &EnvTable) -> (r: Result<Vec<u8>, Vec<u8>>)
    ensures
        match r {
            Ok(out) => subst(input@, env_model(env.entries@)) == Ok::<Seq<u8>, Seq<u8>>(out@),
            Err(name) => subst(input@, env_model(env.entries@)) == Err::<Seq<u8>, Seq<u8>>(
                name@,
            ),
        },
{
    let n = input.len();
    let ghost envm = env_model(env.entries@);
    let mut out: Vec<u8> = Vec::new();
    proof {
        assert(input@.skip(0) =~= input@);
        match subst(input@, envm) {
            Ok(t) => {
                assert(Seq::<u8>::empty() + t =~= t);
            },
            Err(e) => {},
        }
    }
    let mut i: usize = 0;
    while i < n
        invariant
            i <= n,
            n == input@.len(),
            envm == env_model(env.entries@),
            subst(input@, envm) == (match subst(input@.skip(i as int), envm) {
                Ok(t) => Ok::<Seq<u8>, Seq<u8>>(out@ + t),
                Err(e) => Err::<Seq<u8>, Seq<u8>>(e),
            }),
        decreases n - i,
    {
        let ghost rest = input@.skip(i as int);
        let ghost out_pre = out@;
        if input[i] == 36 && i + 1 < n && input[i + 1] == 123 {
            // scan the word run after "${"
            let mut j: usize = i + 2;
            while j < n && is_word(input[j])
                invariant
                    i + 2 <= j <= n,
                    n == input@.len(),
                    forall|k: int| i + 2 <= k < j ==> is_word_byte(input@[k]),
                decreases n - j,
            {
                j += 1;
            }
            proof {
                lemma_word_run_range(input@, i + 2, j as int);
                lemma_word_run_shift(input@, i as int, j as int);
                assert(rest[0] == 36 && rest[1] == 123);
                assert(word_run(rest, 2) == j - i - 2);
            }
            if j > i + 2 && j < n && input[j] == 125 {
                proof {
                    assert(rest[2 + word_run(rest, 2)] == input@[j as int]);
                    assert(var_at(rest));
                    assert(var_name(rest) =~= input@.subrange(i + 2, j as int));
                    assert(rest.skip(3 + word_run(rest, 2)) =~= input@.skip(j + 1));
                }
                match env.lookup_range(input, i + 2, j) {
                    Some(value) => {
                        let m = value.len();
                        let mut k: usize = 0;
                        while k < m
                            invariant
                                k <= m,
                                m == value@.len(),
                                out@ == out_pre + value@.take(k as int),
                            decreases m - k,
                        {
                            let b = value[k];
                            out.push(b);
                            proof {
                                assert(out@ =~= out_pre + value@.take(k + 1));
                            }
                            k += 1;
                        }
                        proof {
                            assert(out@ =~= out_pre + value@);
                            match subst(input@.skip(j + 1), envm) {
                                Ok(t) => {
                                    assert(subst(rest, envm) == Ok::<Seq<u8>, Seq<u8>>(
                                        value@ + t,
                                    ));
                                    assert(out@ + t =~= out_pre + (value@ + t));
                                },
                                Err(e) => {
                                    assert(subst(rest, envm) == Err::<Seq<u8>, Seq<u8>>(e));
                                },
                            }
                        }
                        i = j + 1;
                    },
                    None => {
                        let mut name: Vec<u8> = Vec::new();
                        let mut k: usize = i + 2;
                        while k < j
                            invariant
                                i + 2 <= k <= j <= n,
                                n == input@.len(),
                                name@ == input@.subrange(i + 2, k as int),
                            decreases j - k,
                        {
                            let b = input[k];
                            name.push(b);
                            proof {
                                assert(name@ =~= input@.subrange(i + 2, k + 1));
                            }
                            k += 1;
                        }
                        proof {
                            assert(name@ == var_name(rest));
                            assert(subst(rest, envm) == Err::<Seq<u8>, Seq<u8>>(name@));
                        }
                        return Err(name);
                    },
                }
            } else {
                proof {
                    assert(!var_at(rest));
                }
                let b = input[i];
                out.push(b);
                proof {
                    step_copied(input@, i as int, envm, out_pre);
                }
                i += 1;
            }
        } else {
            proof {
                assert(!var_at(rest)) by {
                    if rest.len() >= 2 {
                        assert(rest[0] == input@[i as int]);
                        assert(rest[1] == input@[i + 1]);
                    }
                }
            }
            let b = input[i];
            out.push(b);
            proof {
                step_copied(input@, i as int, envm, out_pre);
            }
            i += 1;
        }
    }
    proof {
        assert(input@.skip(n as int) =~= Seq::<u8>::empty());
    }
    Ok(out)
}

/// One byte copied through: the invariant equation moves from position `i`
/// to `i + 1`.
proof fn step_copied(s: Seq<u8>, i: int, env: Seq<(Seq<u8>, Seq<u8>)>, out_pre: Seq<u8>)
    requires
        0 <= i < s.len(),
        !var_at(s.skip(i)),
    ensures
        ({
            let rest = s.skip(i);
            match subst(s.skip(i + 1), env) {
                Ok(t) => subst(rest, env) == Ok::<Seq<u8>, Seq<u8>>(seq![s[i]] + t)
                    && out_pre.push(s[i]) + t == out_pre + (seq![s[i]] + t),
                Err(e) => subst(rest, env) == Err::<Seq<u8>, Seq<u8>>(e),
            }
        }),
{
    let rest = s.skip(i);
    assert(rest[0] == s[i]);
    assert(rest.skip(1) =~= s.skip(i + 1));
    match subst(s.skip(i + 1), env) {
        Ok(t) => {
            assert(out_pre.push(s[i]) + t =~= out_pre + (seq![s[i]] + t));
        },
        Err(e) => {},
    }
}

/// Word-byte test on a plain byte.
fn is_word(b: u8) -> (r: bool)
    ensures
        r == is_word_byte(b),
{
    (97 <= b && b <= 122) || (65 <= b && b <= 90) || (48 <= b && b <= 57) || b == 95
}

/// A maximal word run over `[i, j)` has length `j - i`.
proof fn lemma_word_run_range(s: Seq<u8>, i: int, j: int)
    requires
        0 <= i <= j <= s.len(),
        forall|k: int| i <= k < j ==> is_word_byte(s[k]),
        j == s.len() || !is_word_byte(s[j]),
    ensures
        word_run(s, i) == j - i,
    decreases j - i,
{
    if i < j {
        lemma_word_run_range(s, i + 1, j);
    }
}

/// The word run at `i + 2` equals the run at position 2 of the tail
/// `s.skip(i)`.
proof fn lemma_word_run_shift(s: Seq<u8>, i: int, j: int)
    requires
        0 <= i,
        i + 2 <= s.len(),
    ensures
        word_run(s.skip(i), 2) == word_run(s, i + 2),
    decreases s.len() - i,
{
    lemma_word_run_offset(s, i, 2);
}

/// Runs in a suffix line up with runs in the whole sequence.
proof fn lemma_word_run_offset(s: Seq<u8>, i: int, k: int)
    requires
        0 <= i,
        0 <= k,
        i + k <= s.len(),
    ensures
        word_run(s.skip(i), k) == word_run(s, i + k),
    decreases s.len() - i - k,
{
    if i + k < s.len() && is_word_byte(s[i + k]) {
        assert(s.skip(i)[k] == s[i + k]);
        lemma_word_run_offset(s, i, k + 1);
    } else {
        if i + k < s.len() {
            assert(s.skip(i)[k] == s[i + k]);
        }
    }
}

} // verus!
