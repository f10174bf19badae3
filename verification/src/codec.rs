//! The persisted document, emitted: the store as one JSON text, levels
//! in order, each with its missions and terms. The emitter's output is
//! pinned character by character by the spec functions here; reading a
//! document back is left to the persistence boundary outside the library.

use vstd::prelude::*;
use vstd::string::StrSliceExecFns;
use vstd::string::StringExecFns;

use crate::store::{mission_ids_ok, store_wf, HskLevel, Mission, Term};
use crate::text::dec_str;

verus! {

/// The character of one hexadecimal digit.
pub open spec fn hex_char(d: int) -> char {
    if d < 10 {
        crate::text::digit_char(d)
    } else if d == 10 {
        'a'
    } else if d == 11 {
        'b'
    } else if d == 12 {
        'c'
    } else if d == 13 {
        'd'
    } else if d == 14 {
        'e'
    } else {
        'f'
    }
}

/// How one character appears inside a JSON string literal: quote and
/// backslash escaped, the named control escapes, other control
/// characters as a small unicode escape, everything else as itself.
pub open spec fn escaped_char(c: char) -> Seq<char> {
    if c == '"' {
        seq!['\\', '"']
    } else if c == '\\' {
        seq!['\\', '\\']
    } else if c == '\n' {
        seq!['\\', 'n']
    } else if c == '\r' {
        seq!['\\', 'r']
    } else if c == '\t' {
        seq!['\\', 't']
    } else if (c as int) < 32 {
        seq!['\\', 'u', '0', '0', hex_char((c as int) / 16), hex_char((c as int) % 16)]
    } else {
        seq![c]
    }
}

/// A whole string, escaped for a JSON string literal.
pub open spec fn json_escape(s: Seq<char>) -> Seq<char>
    decreases s.len(),
{
    if s.len() == 0 {
        Seq::empty()
    } else {
        json_escape(s.drop_last()) + escaped_char(s.last())
    }
}

/// One term as a JSON object.
pub open spec fn json_of_term(t: Term) -> Seq<char> {
    "{\"hanzi\":\""@ + json_escape(t.hanzi@) + "\",\"pinyin\":\""@ + json_escape(t.pinyin@)
        + "\",\"saved\":"@ + (if t.saved {
        "true"@
    } else {
        "false"@
    }) + "}"@
}

/// A run of terms as the comma-separated inside of a JSON array.
pub open spec fn json_of_terms(ts: Seq<Term>) -> Seq<char>
    decreases ts.len(),
{
    if ts.len() == 0 {
        Seq::empty()
    } else if ts.len() == 1 {
        json_of_term(ts[0])
    } else {
        json_of_terms(ts.drop_last()) + ","@ + json_of_term(ts.last())
    }
}

/// One mission as a JSON object.
pub open spec fn json_of_mission(m: Mission) -> Seq<char> {
    "{\"Mission\":"@ + dec_str(m.id as nat) + ",\"Terms\":["@ + json_of_terms(m.terms@) + "]}"@
}

/// A run of missions as the comma-separated inside of a JSON array.
pub open spec fn json_of_missions(ms: Seq<Mission>) -> Seq<char>
    decreases ms.len(),
{
    if ms.len() == 0 {
        Seq::empty()
    } else if ms.len() == 1 {
        json_of_mission(ms[0])
    } else {
        json_of_missions(ms.drop_last()) + ","@ + json_of_mission(ms.last())
    }
}

/// One level as a JSON object.
pub open spec fn json_of_level(l: HskLevel) -> Seq<char> {
    "{\"HSK Level\":"@ + dec_str(l.level as nat) + ",\"Missions\":["@ + json_of_missions(
        l.missions@,
    ) + "]}"@
}

/// The whole store as one JSON document: an array of levels.
pub open spec fn json_of_store(ls: Seq<HskLevel>) -> Seq<char>
    decreases ls.len(),
{
    if ls.len() == 0 {
        "[]"@
    } else if ls.len() == 1 {
        "["@ + json_of_level(ls[0]) + "]"@
    } else {
        json_of_store(ls.drop_last()).drop_last() + ","@ + json_of_level(ls.last()) + "]"@
    }
}

fn hex_of(d: u32) -> (c: char)
    requires
        d < 16,
    ensures
        c == hex_char(d as int),
{
    if d < 10 {
        crate::text::digit_of(d as usize)
    } else if d == 10 {
        'a'
    } else if d == 11 {
        'b'
    } else if d == 12 {
        'c'
    } else if d == 13 {
        'd'
    } else if d == 14 {
        'e'
    } else {
        'f'
    }
}

fn push_escaped(s: &str, out: &mut String)
    ensures
        final(out)@ == old(out)@ + json_escape(s@),
{
    let n = s.unicode_len();
    proof {
        assert(s@.take(0) =~= Seq::<char>::empty());
        assert(old(out)@ + json_escape(s@.take(0)) =~= old(out)@);
    }
    let mut i: usize = 0;
    while i < n
        invariant
            n == s@.len(),
            i <= n,
            out@ == old(out)@ + json_escape(s@.take(i as int)),
        decreases n - i,
    {
        let c = s.get_char(i);
        proof {
            assert(s@.take(i as int + 1).drop_last() =~= s@.take(i as int));
            assert(s@.take(i as int + 1).last() == s@[i as int]);
        }
        if c == '"' {
            out.push('\\');
            out.push('"');
        } else if c == '\\' {
            out.push('\\');
            out.push('\\');
        } else if c == '\n' {
            out.push('\\');
            out.push('n');
        } else if c == '\r' {
            out.push('\\');
            out.push('r');
        } else if c == '\t' {
            out.push('\\');
            out.push('t');
        } else if (c as u32) < 32 {
            out.push('\\');
            out.push('u');
            out.push('0');
            out.push('0');
            out.push(hex_of((c as u32) / 16));
            out.push(hex_of((c as u32) % 16));
        } else {
            out.push(c);
        }
        proof {
            assert(out@ =~= old(out)@ + json_escape(s@.take(i as int + 1)));
        }
        i += 1;
    }
    proof {
        assert(s@.take(n as int) =~= s@);
    }
}

fn push_term_json(t: &Term, out: &mut String)
    ensures
        final(out)@ == old(out)@ + json_of_term(*t),
{
    out.append("{\"hanzi\":\"");
    push_escaped(t.hanzi.as_str(), out);
    out.append("\",\"pinyin\":\"");
    push_escaped(t.pinyin.as_str(), out);
    out.append("\",\"saved\":");
    if t.saved {
        out.append("true");
    } else {
        out.append("false");
    }
    out.append("}");
    proof {
        assert(out@ =~= old(out)@ + json_of_term(*t));
    }
}

fn push_mission_json(m: &Mission, out: &mut String)
    requires
        m.id >= 0,
    ensures
        final(out)@ == old(out)@ + json_of_mission(*m),
{
    out.append("{\"Mission\":");
    let num = crate::text::id_dec_string(m.id);
    out.append(num.as_str());
    out.append(",\"Terms\":[");
    let ghost mid = out@;
    let mut k: usize = 0;
    while k < m.terms.len()
        invariant
            m.id >= 0,
            k <= m.terms@.len(),
            out@ == mid + json_of_terms(m.terms@.take(k as int)),
        decreases m.terms@.len() - k,
    {
        proof {
            assert(m.terms@.take(k as int + 1).drop_last() =~= m.terms@.take(k as int));
            assert(m.terms@.take(k as int + 1).last() == m.terms@[k as int]);
        }
        if k > 0 {
            out.append(",");
        }
        push_term_json(&m.terms[k], out);
        proof {
            if k == 0 {
                assert(json_of_terms(m.terms@.take(0)) =~= Seq::<char>::empty());
                assert(out@ =~= mid + json_of_terms(m.terms@.take(k as int + 1)));
            } else {
                assert(out@ =~= mid + json_of_terms(m.terms@.take(k as int + 1)));
            }
        }
        k += 1;
    }
    out.append("]}");
    proof {
        assert(m.terms@.take(m.terms@.len() as int) =~= m.terms@);
        assert(out@ =~= old(out)@ + json_of_mission(*m));
    }
}

fn push_level_json(l: &HskLevel, out: &mut String)
    requires
        l.level >= 0,
        mission_ids_ok(l.missions@),
    ensures
        final(out)@ == old(out)@ + json_of_level(*l),
{
    out.append("{\"HSK Level\":");
    let num = crate::text::id_dec_string(l.level);
    out.append(num.as_str());
    out.append(",\"Missions\":[");
    let ghost mid = out@;
    let mut j: usize = 0;
    while j < l.missions.len()
        invariant
            mission_ids_ok(l.missions@),
            j <= l.missions@.len(),
            out@ == mid + json_of_missions(l.missions@.take(j as int)),
        decreases l.missions@.len() - j,
    {
        proof {
            assert(l.missions@.take(j as int + 1).drop_last() =~= l.missions@.take(j as int));
            assert(l.missions@.take(j as int + 1).last() == l.missions@[j as int]);
        }
        if j > 0 {
            out.append(",");
        }
        push_mission_json(&l.missions[j], out);
        proof {
            if j == 0 {
                assert(json_of_missions(l.missions@.take(0)) =~= Seq::<char>::empty());
            }
            assert(out@ =~= mid + json_of_missions(l.missions@.take(j as int + 1)));
        }
        j += 1;
    }
    out.append("]}");
    proof {
        assert(l.missions@.take(l.missions@.len() as int) =~= l.missions@);
        assert(out@ =~= old(out)@ + json_of_level(*l));
    }
}

/// Emit the whole store as the persisted JSON document.
pub fn store_to_json(levels: &Vec<HskLevel>) -> (r: String)
    requires
        store_wf(levels@),
    ensures
        r@ == json_of_store(levels@),
{
    let mut out = String::from_str("[");
    proof {
        reveal_strlit("]");
    }
    let mut i: usize = 0;
    while i < levels.len()
        invariant
            store_wf(levels@),
            i <= levels@.len(),
            i == 0 ==> out@ == "["@,
            i > 0 ==> out@ == json_of_store(levels@.take(i as int)).drop_last(),
        decreases levels@.len() - i,
    {
        proof {
            reveal_strlit("]");
            assert(levels@.take(i as int + 1).drop_last() =~= levels@.take(i as int));
            assert(levels@.take(i as int + 1).last() == levels@[i as int]);
        }
        if i > 0 {
            out.append(",");
        }
        push_level_json(&levels[i], &mut out);
        proof {
            if i == 0 {
                assert(out@ =~= json_of_store(levels@.take(1)).drop_last());
            } else {
                assert(out@ =~= json_of_store(levels@.take(i as int + 1)).drop_last());
            }
        }
        i += 1;
    }
    out.append("]");
    proof {
        reveal_strlit("[");
        reveal_strlit("]");
        reveal_strlit("[]");
        if levels@.len() == 0 {
            assert(out@ =~= json_of_store(levels@));
        } else {
            assert(levels@.take(levels@.len() as int) =~= levels@);
            assert(out@ =~= json_of_store(levels@));
        }
    }
    out
}

} // verus!
