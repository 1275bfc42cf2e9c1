//! The safety check: can every record still finish, one after another?
//!
//! A record can finish once the whole of its demand fits into what is free.
//! When it has finished, what it holds is free too. A set of records is
//! safe if they can all finish in some order, and deadlocked otherwise. The
//! test takes a record's whole demand, not what it still lacks: records ask
//! for their demand as one set and never grow it while they hold a part.

use crate::processo::{ModeloProcesso, Processo};
use crate::recurso::{cabe, creditado_saturado, quantidade, Recurso, Recursos};
use vstd::prelude::*;

verus! {

/// The models of the records that `s` refers to, in the same order.
pub open spec fn modelos_de(s: Seq<&Processo>) -> Seq<ModeloProcesso> {
    s.map_values(|p: &Processo| p@)
}

/// What the records at the positions `ordem` of `ps` hold of `r`, together.
pub open spec fn retido_por(ps: Seq<ModeloProcesso>, ordem: Seq<int>, r: Recurso) -> nat
    decreases ordem.len(),
{
    if ordem.len() == 0 {
        0
    } else {
        retido_por(ps, ordem.drop_last(), r) + quantidade(ps[ordem.last()].alocados, r)
    }
}

/// The record at position `i` can finish once the records at the positions
/// `antes` have: its whole demand fits into what is free in `disponivel`
/// plus what those records hold.
pub open spec fn pode_terminar(
    disponivel: Map<Recurso, u32>,
    ps: Seq<ModeloProcesso>,
    antes: Seq<int>,
    i: int,
) -> bool {
    forall|r: Recurso| #[trigger]
        ps[i].necessarios.dom().contains(r) ==> ps[i].necessarios[r] <= quantidade(disponivel, r)
            + retido_por(ps, antes, r)
}

/// `ordem` names positions of `ps`, none of them twice, and each record can
/// finish once those before it in `ordem` have.
pub open spec fn ordem_segura(
    disponivel: Map<Recurso, u32>,
    ps: Seq<ModeloProcesso>,
    ordem: Seq<int>,
) -> bool {
    &&& forall|k: int| 0 <= k < ordem.len() ==> 0 <= #[trigger] ordem[k] < ps.len()
    &&& forall|a: int, b: int| 0 <= a < b < ordem.len() ==> #[trigger] ordem[a] != #[trigger] ordem[b]
    &&& forall|k: int|
        0 <= k < ordem.len() ==> pode_terminar(disponivel, ps, ordem.take(k), #[trigger] ordem[k])
}

/// `ordem` names every position of `ps`.
pub open spec fn completa(ps: Seq<ModeloProcesso>, ordem: Seq<int>) -> bool {
    forall|i: int| 0 <= i < ps.len() ==> #[trigger] ordem.contains(i)
}

/// There is an order in which all the records of `ps` can finish.
pub open spec fn seguro(disponivel: Map<Recurso, u32>, ps: Seq<ModeloProcesso>) -> bool {
    exists|ordem: Seq<int>| #[trigger] ordem_segura(disponivel, ps, ordem) && completa(ps, ordem)
}

/// No order lets all the records of `ps` finish.
pub open spec fn em_deadlock(disponivel: Map<Recurso, u32>, ps: Seq<ModeloProcesso>) -> bool {
    !seguro(disponivel, ps)
}

/// With no records there is nothing to wait for: the empty set is safe.
pub proof fn lemma_nada_a_terminar(disponivel: Map<Recurso, u32>, ps: Seq<ModeloProcesso>)
    requires
        ps.len() == 0,
    ensures
        !em_deadlock(disponivel, ps),
{
    let ordem = Seq::<int>::empty();
    assert(ordem_segura(disponivel, ps, ordem) && completa(ps, ordem));
}

spec fn saturado(x: nat) -> nat {
    if x <= u32::MAX {
        x
    } else {
        u32::MAX as nat
    }
}

proof fn lemma_retido_sem(ps: Seq<ModeloProcesso>, b: Seq<int>, p: int, r: Recurso)
    requires
        0 <= p < b.len(),
    ensures
        retido_por(ps, b, r) == retido_por(ps, b.remove(p), r) + quantidade(ps[b[p]].alocados, r),
    decreases b.len(),
{
    if p == b.len() - 1 {
        assert(b.remove(p) =~= b.drop_last());
    } else {
        lemma_retido_sem(ps, b.drop_last(), p, r);
        assert(b.remove(p).drop_last() =~= b.drop_last().remove(p));
        assert(b.remove(p).last() == b.last());
    }
}

/// Records named once each hold no more than a set of records that
/// includes them all.
proof fn lemma_retido_monotono(ps: Seq<ModeloProcesso>, a: Seq<int>, b: Seq<int>, r: Recurso)
    requires
        forall|i: int, j: int| 0 <= i < j < a.len() ==> #[trigger] a[i] != #[trigger] a[j],
        forall|i: int| 0 <= i < a.len() ==> b.contains(#[trigger] a[i]),
    ensures
        retido_por(ps, a, r) <= retido_por(ps, b, r),
    decreases a.len(),
{
    if a.len() > 0 {
        let x = a.last();
        let a1 = a.drop_last();
        assert(b.contains(a[a.len() - 1]));
        let p = choose|p: int| 0 <= p < b.len() && b[p] == x;
        let b1 = b.remove(p);
        lemma_retido_sem(ps, b, p, r);
        assert forall|i: int| 0 <= i < a1.len() implies b1.contains(#[trigger] a1[i]) by {
            let y = a1[i];
            assert(a[i] != a[a.len() - 1]);
            assert(b.contains(a[i]));
            let q = choose|q: int| 0 <= q < b.len() && b[q] == y;
            if q < p {
                assert(b1[q] == y);
            } else {
                assert(b1[q - 1] == y);
            }
        }
        assert forall|i: int, j: int| 0 <= i < j < a1.len() implies #[trigger] a1[i]
            != #[trigger] a1[j] by {
            assert(a[i] != a[j]);
        }
        lemma_retido_monotono(ps, a1, b1, r);
    }
}

/// The first position of `sigma`, up to `p`, that names a record outside
/// `ordem`.
proof fn lemma_primeiro_fora(ordem: Seq<int>, sigma: Seq<int>, p: int) -> (k: int)
    requires
        0 <= p < sigma.len(),
        !ordem.contains(sigma[p]),
    ensures
        0 <= k <= p,
        !ordem.contains(sigma[k]),
        forall|j: int| 0 <= j < k ==> ordem.contains(#[trigger] sigma[j]),
    decreases p,
{
    if exists|j: int| 0 <= j < p && !ordem.contains(#[trigger] sigma[j]) {
        let j = choose|j: int| 0 <= j < p && !ordem.contains(#[trigger] sigma[j]);
        lemma_primeiro_fora(ordem, sigma, j)
    } else {
        p
    }
}

/// Where the records of `ordem` have finished and none of the others can
/// finish after them, no order lets all the records finish, unless `ordem`
/// names them all.
proof fn lemma_travado(
    disponivel: Map<Recurso, u32>,
    ps: Seq<ModeloProcesso>,
    ordem: Seq<int>,
    fora: int,
)
    requires
        0 <= fora < ps.len(),
        !ordem.contains(fora),
        forall|i: int|
            0 <= i < ps.len() && !ordem.contains(i) ==> !#[trigger] pode_terminar(
                disponivel,
                ps,
                ordem,
                i,
            ),
    ensures
        !seguro(disponivel, ps),
{
    if seguro(disponivel, ps) {
        let sigma = choose|sigma: Seq<int>| #[trigger]
            ordem_segura(disponivel, ps, sigma) && completa(ps, sigma);
        assert(sigma.contains(fora));
        let p = choose|p: int| 0 <= p < sigma.len() && sigma[p] == fora;
        let k = lemma_primeiro_fora(ordem, sigma, p);
        let i = sigma[k];
        let antes = sigma.take(k);
        assert(pode_terminar(disponivel, ps, antes, i));
        assert forall|r: Recurso| #[trigger] ps[i].necessarios.dom().contains(r) implies ps[i].necessarios[r]
            <= quantidade(disponivel, r) + retido_por(ps, ordem, r) by {
            assert forall|a: int, b: int| 0 <= a < b < antes.len() implies #[trigger] antes[a]
                != #[trigger] antes[b] by {
                assert(sigma[a] != sigma[b]);
            }
            assert forall|j: int| 0 <= j < antes.len() implies ordem.contains(
                #[trigger] antes[j],
            ) by {
                assert(ordem.contains(sigma[j]));
            }
            lemma_retido_monotono(ps, antes, ordem, r);
        }
        assert(pode_terminar(disponivel, ps, ordem, i));
        assert(false);
    }
}

/// The invariant of the marking loop: `ordem` is the order in which records
/// were marked so far, `terminou` flags exactly those, and `trabalho` is
/// what is free plus what they hold, capped at `u32::MAX`.
spec fn marcacao(
    disponivel: Map<Recurso, u32>,
    ps: Seq<ModeloProcesso>,
    trabalho: Map<Recurso, u32>,
    terminou: Seq<bool>,
    ordem: Seq<int>,
) -> bool {
    &&& terminou.len() == ps.len()
    &&& ordem_segura(disponivel, ps, ordem)
    &&& forall|i: int| 0 <= i < ps.len() ==> (#[trigger] terminou[i] <==> ordem.contains(i))
    &&& forall|r: Recurso| #[trigger]
        quantidade(trabalho, r) == saturado(quantidade(disponivel, r) + retido_por(ps, ordem, r))
}

proof fn lemma_cabe_no_trabalho(
    disponivel: Map<Recurso, u32>,
    ps: Seq<ModeloProcesso>,
    trabalho: Map<Recurso, u32>,
    terminou: Seq<bool>,
    ordem: Seq<int>,
    i: int,
)
    requires
        marcacao(disponivel, ps, trabalho, terminou, ordem),
        0 <= i < ps.len(),
    ensures
        cabe(ps[i].necessarios, trabalho) == pode_terminar(disponivel, ps, ordem, i),
{
    let req = ps[i].necessarios;
    if cabe(req, trabalho) {
        assert forall|r: Recurso| #[trigger] req.dom().contains(r) implies req[r] <= quantidade(
            disponivel,
            r,
        ) + retido_por(ps, ordem, r) by {
            assert(req[r] <= quantidade(trabalho, r));
        }
    }
    if pode_terminar(disponivel, ps, ordem, i) {
        assert forall|r: Recurso| #[trigger] req.dom().contains(r) implies req[r] <= quantidade(
            trabalho,
            r,
        ) by {
            assert(quantidade(trabalho, r) == saturado(
                quantidade(disponivel, r) + retido_por(ps, ordem, r),
            ));
        }
    }
}

proof fn lemma_marca(
    disponivel: Map<Recurso, u32>,
    ps: Seq<ModeloProcesso>,
    trabalho: Map<Recurso, u32>,
    terminou: Seq<bool>,
    ordem: Seq<int>,
    i: int,
)
    requires
        marcacao(disponivel, ps, trabalho, terminou, ordem),
        0 <= i < ps.len(),
        !terminou[i],
        cabe(ps[i].necessarios, trabalho),
    ensures
        marcacao(
            disponivel,
            ps,
            creditado_saturado(trabalho, ps[i].alocados),
            terminou.update(i, true),
            ordem.push(i),
        ),
{
    let t2 = creditado_saturado(trabalho, ps[i].alocados);
    let f2 = terminou.update(i, true);
    let o2 = ordem.push(i);
    lemma_cabe_no_trabalho(disponivel, ps, trabalho, terminou, ordem, i);
    assert(o2.drop_last() =~= ordem);
    assert(!ordem.contains(i));
    assert forall|a: int, b: int| 0 <= a < b < o2.len() implies #[trigger] o2[a] != #[trigger] o2[b] by {
        if b == ordem.len() {
            assert(o2[a] == ordem[a]);
            assert(ordem.contains(ordem[a]));
        } else {
            assert(ordem[a] != ordem[b]);
        }
    }
    assert forall|k: int| 0 <= k < o2.len() implies pode_terminar(
        disponivel,
        ps,
        o2.take(k),
        #[trigger] o2[k],
    ) by {
        if k == ordem.len() {
            assert(o2.take(k) =~= ordem);
        } else {
            assert(o2.take(k) =~= ordem.take(k));
            assert(pode_terminar(disponivel, ps, ordem.take(k), ordem[k]));
        }
    }
    assert forall|j: int| 0 <= j < ps.len() implies (#[trigger] f2[j] <==> o2.contains(j)) by {
        if j == i {
            assert(o2[ordem.len() as int] == i);
        } else {
            assert(terminou[j] <==> ordem.contains(j));
            if ordem.contains(j) {
                let p = choose|p: int| 0 <= p < ordem.len() && ordem[p] == j;
                assert(o2[p] == j);
            }
            if o2.contains(j) {
                let p = choose|p: int| 0 <= p < o2.len() && o2[p] == j;
                assert(ordem[p] == j);
            }
        }
    }
    assert forall|r: Recurso| #[trigger]
        quantidade(t2, r) == saturado(quantidade(disponivel, r) + retido_por(ps, o2, r)) by {
        assert(quantidade(trabalho, r) == saturado(
            quantidade(disponivel, r) + retido_por(ps, ordem, r),
        ));
    }
}

/// Whether the records `processos` are deadlocked over what `disponiveis`
/// has free: whether no order lets them all finish.
///
/// Records are marked as finished in passes over `processos`. A record is
/// marked when its whole demand fits into the working count, which starts
/// as what is free and grows by what each marked record holds. The passes
/// end with the first one that marks nothing.
pub fn ha_deadlock(disponiveis: &Recursos, processos: &Vec<&Processo>) -> (b: bool)
    requires
        disponiveis.wf(),
        forall|i: int| 0 <= i < processos@.len() ==> (#[trigger] processos@[i]).tabelas_ok(),
    ensures
        b == em_deadlock(disponiveis@, modelos_de(processos@)),
{
    let n = processos.len();
    let ghost ps = modelos_de(processos@);
    let ghost disp = disponiveis@;
    let mut trabalho = disponiveis.clone();
    let mut terminou: Vec<bool> = Vec::new();
    while terminou.len() < n
        invariant
            terminou@.len() <= n,
            forall|i: int| 0 <= i < terminou@.len() ==> !#[trigger] terminou@[i],
        decreases n - terminou@.len(),
    {
        terminou.push(false);
    }
    let ghost mut ordem: Seq<int> = Seq::empty();
    let mut progresso = true;
    while progresso
        invariant
            n == processos@.len(),
            ps == modelos_de(processos@),
            forall|i: int| 0 <= i < processos@.len() ==> (#[trigger] processos@[i]).tabelas_ok(),
            trabalho.wf(),
            marcacao(disp, ps, trabalho@, terminou@, ordem),
            ordem.len() <= n,
            !progresso ==> forall|i: int|
                0 <= i < n && !terminou@[i] ==> !#[trigger] pode_terminar(disp, ps, ordem, i),
        decreases n - ordem.len() + (if progresso { 1int } else { 0int }),
    {
        progresso = false;
        let ghost inicio = ordem;
        let mut i: usize = 0;
        while i < n
            invariant
                n == processos@.len(),
                ps == modelos_de(processos@),
                forall|i: int| 0 <= i < processos@.len() ==> (#[trigger] processos@[i]).tabelas_ok(),
                trabalho.wf(),
                marcacao(disp, ps, trabalho@, terminou@, ordem),
                i <= n,
                ordem.len() <= n,
                inicio.len() <= ordem.len(),
                progresso ==> inicio.len() < ordem.len(),
                !progresso ==> forall|j: int|
                    0 <= j < i && !terminou@[j] ==> !#[trigger] pode_terminar(disp, ps, ordem, j),
            decreases n - i,
        {
            let p = processos[i];
            assert(p@ == ps[i as int]);
            if !terminou[i] && trabalho.comporta(&p.recursos_necessarios) {
                proof {
                    lemma_marca(disp, ps, trabalho@, terminou@, ordem, i as int);
                    lemma_sem_repeticao_limita(ps.len() as int, ordem.push(i as int));
                    ordem = ordem.push(i as int);
                }
                terminou.set(i, true);
                trabalho.creditar_saturado(&p.recursos_alocados);
                progresso = true;
            } else {
                proof {
                    lemma_cabe_no_trabalho(disp, ps, trabalho@, terminou@, ordem, i as int);
                }
            }
            i += 1;
        }
    }
    let mut i: usize = 0;
    while i < n
        invariant
            n == ps.len(),
            ps == modelos_de(processos@),
            disp == disponiveis@,
            marcacao(disp, ps, trabalho@, terminou@, ordem),
            forall|i: int|
                0 <= i < n && !terminou@[i] ==> !#[trigger] pode_terminar(disp, ps, ordem, i),
            i <= n,
            forall|j: int| 0 <= j < i ==> #[trigger] terminou@[j],
        decreases n - i,
    {
        if !terminou[i] {
            proof {
                lemma_travado(disp, ps, ordem, i as int);
            }
            return true;
        }
        i += 1;
    }
    proof {
        assert forall|j: int| 0 <= j < ps.len() implies #[trigger] ordem.contains(j) by {
            assert(terminou@[j]);
        }
        assert(ordem_segura(disp, ps, ordem) && completa(ps, ordem));
    }
    false
}

/// A sequence that names positions below `n`, none of them twice, has at
/// most `n` entries.
proof fn lemma_sem_repeticao_limita(n: int, s: Seq<int>)
    requires
        0 <= n,
        forall|k: int| 0 <= k < s.len() ==> 0 <= #[trigger] s[k] < n,
        forall|a: int, b: int| 0 <= a < b < s.len() ==> #[trigger] s[a] != #[trigger] s[b],
    ensures
        s.len() <= n,
    decreases n,
{
    if s.len() > 0 {
        if n == 0 {
            assert(0 <= s[0] < n);
        } else if exists|p: int| 0 <= p < s.len() && #[trigger] s[p] == n - 1 {
            let p = choose|p: int| 0 <= p < s.len() && #[trigger] s[p] == n - 1;
            let t = s.remove(p);
            assert forall|k: int| 0 <= k < t.len() implies 0 <= #[trigger] t[k] < n - 1 by {
                if k < p {
                    assert(s[k] != s[p]);
                } else {
                    assert(s[p] != s[k + 1]);
                }
            }
            assert forall|a: int, b: int| 0 <= a < b < t.len() implies #[trigger] t[a]
                != #[trigger] t[b] by {
                let a1 = if a < p { a } else { a + 1 };
                let b1 = if b < p { b } else { b + 1 };
                assert(s[a1] != s[b1]);
            }
            lemma_sem_repeticao_limita(n - 1, t);
            assert(t.len() == s.len() - 1);
        } else {
            assert forall|k: int| 0 <= k < s.len() implies 0 <= #[trigger] s[k] < n - 1 by {}
            lemma_sem_repeticao_limita(n - 1, s);
        }
    }
}

} // verus!
