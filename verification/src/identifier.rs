use vstd::prelude::*;

verus! {

/// What one character of a NASA species name becomes in an identifier.
pub open spec fn clean_char(c: char) -> Seq<char> {
    if c == '+' {
        seq!['P', 'l', 'u', 's']
    } else if c == '-' {
        seq!['N', 'e', 'g']
    } else if c == ',' || c == '.' || c == '(' || c == ')' {
        seq!['_']
    } else if c == '\'' {
        seq!['P', 'r', 'i', 'm', 'e']
    } else {
        seq![c]
    }
}

/// Every character of `s` replaced by its `clean_char`.
pub open spec fn clean_chars(s: Seq<char>) -> Seq<char>
    decreases s.len(),
{
    if s.len() == 0 {
        Seq::empty()
    } else {
        clean_chars(s.drop_last()) + clean_char(s.last())
    }
}

/// One trailing `_`, then one leading `_`, removed if present.
pub open spec fn strip_underscores(s: Seq<char>) -> Seq<char> {
    let t = if s.len() > 0 && s.last() == '_' {
        s.drop_last()
    } else {
        s
    };
    if t.len() > 0 && t[0] == '_' {
        t.drop_first()
    } else {
        t
    }
}

/// The identifier that a raw NASA species name (`Ag+`, `H2O(L)`, `e-`)
/// is known by: the electron `e-` is `E`; otherwise `+` becomes `Plus`,
/// `-` becomes `Neg`, `'` becomes `Prime` and `,` `.` `(` `)` become `_`,
/// and then one trailing and one leading `_` are dropped.
pub open spec fn spec_clean_identifier(raw: Seq<char>) -> Seq<char> {
    if raw == seq!['e', '-'] {
        seq!['E']
    } else {
        strip_underscores(clean_chars(raw))
    }
}

/// The characters that never survive cleaning.
pub open spec fn is_name_punctuation(c: char) -> bool {
    c == '+' || c == '-' || c == ',' || c == '.' || c == '\'' || c == '(' || c == ')'
}

proof fn lemma_clean_chars_no_punctuation(s: Seq<char>)
    ensures
        forall|k: int|
            0 <= k < clean_chars(s).len() ==> !is_name_punctuation(#[trigger] clean_chars(s)[k]),
    decreases s.len(),
{
    if s.len() > 0 {
        lemma_clean_chars_no_punctuation(s.drop_last());
        let a = clean_chars(s.drop_last());
        let b = clean_char(s.last());
        assert forall|k: int|
            0 <= k < clean_chars(s).len() implies !is_name_punctuation(
            #[trigger] clean_chars(s)[k],
        ) by {
            if k < a.len() {
                assert(clean_chars(s)[k] == a[k]);
            } else {
                assert(clean_chars(s)[k] == b[k - a.len()]);
            }
        }
    }
}

/// A cleaned identifier holds none of `+ - , . ' ( )`.
pub proof fn lemma_clean_identifier_has_no_punctuation(raw: Seq<char>)
    ensures
        forall|k: int|
            0 <= k < spec_clean_identifier(raw).len() ==> !is_name_punctuation(
                #[trigger] spec_clean_identifier(raw)[k],
            ),
{
    lemma_clean_chars_no_punctuation(raw);
    let c = clean_chars(raw);
    let t = if c.len() > 0 && c.last() == '_' {
        c.drop_last()
    } else {
        c
    };
    if raw != seq!['e', '-'] {
        assert forall|k: int|
            0 <= k < spec_clean_identifier(raw).len() implies !is_name_punctuation(
            #[trigger] spec_clean_identifier(raw)[k],
        ) by {
            if t.len() > 0 && t[0] == '_' {
                assert(spec_clean_identifier(raw)[k] == t[k + 1]);
                assert(t[k + 1] == c[k + 1]);
            } else {
                assert(spec_clean_identifier(raw)[k] == t[k]);
                assert(t[k] == c[k]);
            }
        }
    }
}

/// Cleaning works one character at a time: the cleaned form of two pieces
/// put together is their cleaned forms put together.
pub proof fn lemma_clean_chars_concat(a: Seq<char>, b: Seq<char>)
    ensures
        clean_chars(a + b) == clean_chars(a) + clean_chars(b),
    decreases b.len(),
{
    if b.len() == 0 {
        assert(a + b =~= a);
        assert(clean_chars(a) + clean_chars(b) =~= clean_chars(a));
    } else {
        lemma_clean_chars_concat(a, b.drop_last());
        assert((a + b).drop_last() =~= a + b.drop_last());
        assert((a + b).last() == b.last());
        assert(clean_chars(a) + clean_chars(b.drop_last()) + clean_char(b.last()) =~= clean_chars(
            a,
        ) + clean_chars(b));
    }
}

/// Each character of a name leaves its cleaned form in order: the
/// replacement of character `k` stands right after the cleaned form of the
/// characters before it, and a character other than `+ - , . ' ( )` is
/// kept as it is.
pub proof fn lemma_clean_chars_in_order(raw: Seq<char>, k: int)
    requires
        0 <= k < raw.len(),
    ensures
        ({
            let off = clean_chars(raw.take(k)).len() as int;
            &&& clean_chars(raw).subrange(off, off + clean_char(raw[k]).len()) == clean_char(raw[k])
            &&& !is_name_punctuation(raw[k]) ==> clean_chars(raw)[off] == raw[k]
        }),
{
    let before = raw.take(k);
    let after = raw.skip(k + 1);
    assert(raw =~= before + seq![raw[k]] + after);
    lemma_clean_chars_concat(before + seq![raw[k]], after);
    lemma_clean_chars_concat(before, seq![raw[k]]);
    let one = seq![raw[k]];
    assert(one.drop_last() =~= Seq::<char>::empty());
    assert(one.last() == raw[k]);
    assert(clean_chars(Seq::<char>::empty()) == Seq::<char>::empty());
    assert(clean_chars(one) == clean_chars(one.drop_last()) + clean_char(one.last()));
    assert(clean_chars(one) =~= clean_char(raw[k]));
    let off = clean_chars(before).len() as int;
    let c = clean_chars(raw);
    assert(c =~= clean_chars(before) + clean_char(raw[k]) + clean_chars(after));
    assert(c.subrange(off, off + clean_char(raw[k]).len()) =~= clean_char(raw[k]));
}

/// Cleaning leaves a name without `+ - , . ' ( )` as it is.
proof fn lemma_clean_chars_of_plain(raw: Seq<char>)
    requires
        forall|k: int| 0 <= k < raw.len() ==> !is_name_punctuation(#[trigger] raw[k]),
    ensures
        clean_chars(raw) == raw,
    decreases raw.len(),
{
    if raw.len() > 0 {
        lemma_clean_chars_of_plain(raw.drop_last());
        assert(!is_name_punctuation(raw[raw.len() - 1]));
        assert(raw.drop_last().push(raw.last()) =~= raw);
    }
}

/// A name without `+ - , . ' ( )` keeps every character, in order, apart
/// from one leading and one trailing `_`, which are dropped.
pub proof fn lemma_clean_identifier_keeps_plain_names(raw: Seq<char>)
    requires
        forall|k: int| 0 <= k < raw.len() ==> !is_name_punctuation(#[trigger] raw[k]),
    ensures
        spec_clean_identifier(raw) == strip_underscores(raw),
{
    lemma_clean_chars_of_plain(raw);
    if raw == seq!['e', '-'] {
        assert(is_name_punctuation(raw[1]));
    }
}

/// Turns a raw species name from `thermo.inp` into the identifier it is
/// known by (see `spec_clean_identifier`), e.g. `Ag+` into `AgPlus`.
pub fn clean_identifier(raw_identifier: &str) -> (r: String)
    ensures
        r@ == spec_clean_identifier(raw_identifier@),
        forall|k: int| 0 <= k < r@.len() ==> !is_name_punctuation(#[trigger] r@[k]),
{
    proof {
        lemma_clean_identifier_has_no_punctuation(raw_identifier@);
    }
    let n = raw_identifier.unicode_len();
    if n == 2 && raw_identifier.get_char(0) == 'e' && raw_identifier.get_char(1) == '-' {
        proof {
            reveal_strlit("E");
            assert(raw_identifier@ =~= seq!['e', '-']);
        }
        return String::from_str("E");
    }
    proof {
        if raw_identifier@ == seq!['e', '-'] {
            assert(raw_identifier@[0] == 'e');
        }
    }
    let mut cleaned = String::new();
    let mut i: usize = 0;
    proof {
        assert(raw_identifier@.take(0) =~= Seq::<char>::empty());
    }
    while i < n
        invariant
            n == raw_identifier@.len(),
            i <= n,
            cleaned@ == clean_chars(raw_identifier@.take(i as int)),
        decreases n - i,
    {
        let c = raw_identifier.get_char(i);
        if c == '+' {
            proof { reveal_strlit("Plus"); }
            cleaned.append("Plus");
        } else if c == '-' {
            proof { reveal_strlit("Neg"); }
            cleaned.append("Neg");
        } else if c == ',' || c == '.' || c == '(' || c == ')' {
            proof { reveal_strlit("_"); }
            cleaned.append("_");
        } else if c == '\'' {
            proof { reveal_strlit("Prime"); }
            cleaned.append("Prime");
        } else {
            cleaned.append(raw_identifier.substring_char(i, i + 1));
        }
        proof {
            assert(raw_identifier@.take(i + 1).drop_last() =~= raw_identifier@.take(i as int));
            assert(raw_identifier@.subrange(i as int, i + 1) =~= seq![c]);
        }
        i = i + 1;
    }
    proof {
        assert(raw_identifier@.take(n as int) =~= raw_identifier@);
    }
    let len = cleaned.as_str().unicode_len();
    let trimmed = if len > 0 && cleaned.as_str().get_char(len - 1) == '_' {
        String::from_str(cleaned.as_str().substring_char(0, len - 1))
    } else {
        cleaned
    };
    let len = trimmed.as_str().unicode_len();
    let r = if len > 0 && trimmed.as_str().get_char(0) == '_' {
        String::from_str(trimmed.as_str().substring_char(1, len))
    } else {
        trimmed
    };
    assert(r@ =~= spec_clean_identifier(raw_identifier@));
    r
}

} // verus!
