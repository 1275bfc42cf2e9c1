//! Reading numbers that a user typed.

use vstd::prelude::*;
use vstd::string::StrSliceExecFns;

verus! {

/// What `str::trim` makes of a text: the text without the white space at
/// its two ends, where white space is what Unicode lists as such.
pub uninterp spec fn texto_aparado(texto: Seq<char>) -> Seq<char>;

/// Whether `c` is one of the ten decimal digits.
pub open spec fn e_digito(c: char) -> bool {
    '0' <= c <= '9'
}

/// The number that the decimal digits `s` write; zero for no digits.
pub open spec fn numero(s: Seq<char>) -> nat
    decreases s.len(),
{
    if s.len() == 0 {
        0
    } else {
        (10 * numero(s.drop_last()) + (s.last() as u32 - '0' as u32)) as nat
    }
}

/// The digits of a text: the text without a plus sign at its head.
pub open spec fn sem_sinal(texto: Seq<char>) -> Seq<char> {
    if texto.len() > 0 && texto[0] == '+' {
        texto.skip(1)
    } else {
        texto
    }
}

/// The number that a text writes: an optional plus sign, then one or more
/// decimal digits and nothing else, for a number that fits into 64 bits.
/// Any other text writes no number.
pub open spec fn valor_decimal(texto: Seq<char>) -> Option<u64> {
    let d = sem_sinal(texto);
    if d.len() > 0 && (forall|i: int| 0 <= i < d.len() ==> e_digito(#[trigger] d[i])) && numero(d)
        <= u64::MAX {
        Some(numero(d) as u64)
    } else {
        None
    }
}

proof fn lemma_numero_cresce(s: Seq<char>, k: int)
    requires
        0 <= k <= s.len(),
        forall|i: int| 0 <= i < s.len() ==> e_digito(#[trigger] s[i]),
    ensures
        numero(s.take(k)) <= numero(s),
    decreases s.len() - k,
{
    if k < s.len() {
        lemma_numero_cresce(s, k + 1);
        assert(s.take(k + 1).drop_last() =~= s.take(k));
        assert(e_digito(s[k]));
        assert(s.take(k + 1).last() == s[k]);
    } else {
        assert(s.take(k) =~= s);
    }
}

/// The text without the white space at its two ends: `str::trim`. The
/// result is named, not described: [`texto_aparado`].
#[verifier::external_body]
fn aparar<'a>(texto: &'a str) -> (r: &'a str)
    ensures
        r@ == texto_aparado(texto@),
{
    texto.trim()
}

/// The number that the text writes: see [`valor_decimal`].
pub fn analisar(texto: &str) -> (r: Option<u64>)
    ensures
        r == valor_decimal(texto@),
{
    let n = texto.unicode_len();
    if n == 0 {
        return None;
    }
    let inicio: usize = if texto.get_char(0) == '+' {
        1
    } else {
        0
    };
    let ghost d = sem_sinal(texto@);
    assert(d == texto@.skip(inicio as int));
    if inicio == n {
        return None;
    }
    let mut valor: u64 = 0;
    let mut i: usize = inicio;
    assert(d.take(0) =~= Seq::<char>::empty());
    while i < n
        invariant
            n == texto@.len(),
            inicio <= i <= n,
            d == sem_sinal(texto@),
            d == texto@.skip(inicio as int),
            d.len() == n - inicio,
            forall|j: int| 0 <= j < i - inicio ==> e_digito(#[trigger] d[j]),
            valor == numero(d.take(i - inicio)),
        decreases n - i,
    {
        let c = texto.get_char(i);
        assert(c == d[i - inicio]);
        if c < '0' || c > '9' {
            assert(!e_digito(d[i - inicio]));
            return None;
        }
        let digito: u64 = (c as u32 - '0' as u32) as u64;
        proof {
            assert(d.take(i - inicio + 1).drop_last() =~= d.take(i - inicio));
            assert(d.take(i - inicio + 1).last() == c);
            if exists|j: int| 0 <= j < d.len() && !e_digito(#[trigger] d[j]) {
            } else {
                lemma_numero_cresce(d, i - inicio + 1);
            }
        }
        if valor > (u64::MAX - digito) / 10 {
            assert(10 * valor + digito > u64::MAX);
            assert(numero(d.take(i - inicio + 1)) == 10 * valor + digito);
            return None;
        }
        assert(numero(d.take(i - inicio + 1)) == 10 * valor + digito);
        valor = valor * 10 + digito;
        i += 1;
    }
    assert(d.take(n - inicio) =~= d);
    Some(valor)
}

/// What an entry is read as. An empty entry stands for `padrao`, whatever
/// the limits. A number from `min` to `max` stands for itself. Anything
/// else is no answer, and the user is asked again.
pub open spec fn entrada_valida(
    vazia: bool,
    valor: Option<u64>,
    min: usize,
    max: usize,
    padrao: usize,
) -> Option<usize> {
    if vazia {
        Some(padrao)
    } else {
        match valor {
            Some(v) if min <= v <= max => Some(v as usize),
            _ => None,
        }
    }
}

/// Reads an entry of which it is known whether it was empty and what
/// number it wrote, if any: see [`entrada_valida`].
pub fn validar_entrada(vazia: bool, valor: Option<u64>, min: usize, max: usize, padrao: usize) -> (r:
    Option<usize>)
    ensures
        r == entrada_valida(vazia, valor, min, max, padrao),
{
    if vazia {
        return Some(padrao);
    }
    match valor {
        Some(v) => {
            if min as u64 <= v && v <= max as u64 {
                Some(v as usize)
            } else {
                None
            }
        },
        None => None,
    }
}

/// Reads the line `texto` as an entry: the line is trimmed, and what is
/// left is read as [`entrada_valida`] says.
pub fn interpretar_entrada(texto: &str, min: usize, max: usize, padrao: usize) -> (r: Option<usize>)
    ensures
        r == entrada_valida(
            texto_aparado(texto@).len() == 0,
            valor_decimal(texto_aparado(texto@)),
            min,
            max,
            padrao,
        ),
{
    let limpo = aparar(texto);
    if limpo.is_empty() {
        validar_entrada(true, None, min, max, padrao)
    } else {
        validar_entrada(false, analisar(limpo), min, max, padrao)
    }
}

} // verus!
