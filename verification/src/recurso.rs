//! Resource kinds, resource tables and the ledger operations on them.
//!
//! A [`Recursos`] table maps resource kinds to counts. The same type serves
//! as the ledger of what is available, as the demand of a process and as the
//! record of what a process holds. Contracts speak of a table through its
//! view, a `Map<Recurso, u32>`; a kind that a table does not list counts as
//! zero (see [`quantidade`]).

use vstd::prelude::*;

verus! {

/// A kind of shared resource. Memory pools of different sizes are different
/// kinds: a demand for `Memoria(1024)` never draws from `Memoria(2048)`.
#[derive(Debug, Clone, Copy, PartialEq, Eq, Hash, Structural)]
pub enum Recurso {
    Impressora,
    Scanner,
    Disco,
    /// A memory pool, tagged by its block size in megabytes.
    Memoria(u32),
}

/// The count that `m` gives for `r`: zero for a kind that `m` does not list.
pub open spec fn quantidade(m: Map<Recurso, u32>, r: Recurso) -> nat {
    if m.dom().contains(r) {
        m[r] as nat
    } else {
        0
    }
}

/// Every entry of `pedido` asks for no more than `disponivel` has.
pub open spec fn cabe(pedido: Map<Recurso, u32>, disponivel: Map<Recurso, u32>) -> bool {
    forall|r: Recurso| #[trigger]
        pedido.dom().contains(r) ==> pedido[r] <= quantidade(disponivel, r)
}

/// `disponivel` after every entry of `pedido` was taken out of it. The kinds
/// listed stay the same.
pub open spec fn debitado(disponivel: Map<Recurso, u32>, pedido: Map<Recurso, u32>) -> Map<
    Recurso,
    u32,
> {
    Map::new(
        |r: Recurso| disponivel.dom().contains(r),
        |r: Recurso| (disponivel[r] - quantidade(pedido, r)) as u32,
    )
}

/// `disponivel` after every entry of `devolvido` was put back into it. A kind
/// that only `devolvido` lists is listed afterwards.
pub open spec fn creditado(disponivel: Map<Recurso, u32>, devolvido: Map<Recurso, u32>) -> Map<
    Recurso,
    u32,
> {
    Map::new(
        |r: Recurso| disponivel.dom().contains(r) || devolvido.dom().contains(r),
        |r: Recurso| (quantidade(disponivel, r) + quantidade(devolvido, r)) as u32,
    )
}

/// Putting `devolvido` back into `disponivel` overflows no count.
pub open spec fn credito_cabe(disponivel: Map<Recurso, u32>, devolvido: Map<Recurso, u32>) -> bool {
    forall|r: Recurso| #[trigger]
        devolvido.dom().contains(r) ==> quantidade(disponivel, r) + devolvido[r] <= u32::MAX
}

/// As [`creditado`], but a count that would pass `u32::MAX` stays there.
pub open spec fn creditado_saturado(
    disponivel: Map<Recurso, u32>,
    devolvido: Map<Recurso, u32>,
) -> Map<Recurso, u32> {
    Map::new(
        |r: Recurso| disponivel.dom().contains(r) || devolvido.dom().contains(r),
        |r: Recurso|
            if quantidade(disponivel, r) + quantidade(devolvido, r) <= u32::MAX {
                (quantidade(disponivel, r) + quantidade(devolvido, r)) as u32
            } else {
                u32::MAX
            },
    )
}

spec fn chaves_distintas(s: Seq<(Recurso, u32)>) -> bool {
    forall|i: int, j: int| 0 <= i < j < s.len() ==> (#[trigger] s[i]).0 != (#[trigger] s[j]).0
}

spec fn tem_chave(s: Seq<(Recurso, u32)>, k: Recurso) -> bool {
    exists|i: int| 0 <= i < s.len() && (#[trigger] s[i]).0 == k
}

spec fn posicao(s: Seq<(Recurso, u32)>, k: Recurso) -> int {
    choose|i: int| 0 <= i < s.len() && (#[trigger] s[i]).0 == k
}

spec fn mapa_de(s: Seq<(Recurso, u32)>) -> Map<Recurso, u32> {
    Map::new(|k: Recurso| tem_chave(s, k), |k: Recurso| s[posicao(s, k)].1)
}

proof fn lemma_mapa_item(s: Seq<(Recurso, u32)>, i: int)
    requires
        chaves_distintas(s),
        0 <= i < s.len(),
    ensures
        mapa_de(s).dom().contains(s[i].0),
        mapa_de(s)[s[i].0] == s[i].1,
        posicao(s, s[i].0) == i,
{
    let k = s[i].0;
    assert(tem_chave(s, k));
    let p = posicao(s, k);
    assert(0 <= p < s.len() && s[p].0 == k);
    if p < i {
        assert(s[p].0 != s[i].0);
    } else if i < p {
        assert(s[i].0 != s[p].0);
    }
}

proof fn lemma_mapa_chave(s: Seq<(Recurso, u32)>, k: Recurso)
    requires
        chaves_distintas(s),
        mapa_de(s).dom().contains(k),
    ensures
        0 <= posicao(s, k) < s.len(),
        s[posicao(s, k)].0 == k,
        mapa_de(s)[k] == s[posicao(s, k)].1,
{
    assert(tem_chave(s, k));
}

proof fn lemma_mapa_acrescenta(s: Seq<(Recurso, u32)>, k: Recurso, v: u32)
    requires
        chaves_distintas(s),
        !tem_chave(s, k),
    ensures
        chaves_distintas(s.push((k, v))),
        mapa_de(s.push((k, v))) == mapa_de(s).insert(k, v),
{
    let t = s.push((k, v));
    assert forall|i: int, j: int| 0 <= i < j < t.len() implies (#[trigger] t[i]).0 != (
    #[trigger] t[j]).0 by {
        if j < s.len() {
            assert(s[i].0 != s[j].0);
        } else {
            assert(t[i] == s[i]);
            if s[i].0 == k {
                assert(tem_chave(s, k));
            }
        }
    }
    assert(t[s.len() as int] == (k, v));
    lemma_mapa_atualizado(s, t, k, v);
}

/// `t` lists what `s` lists, but for the key `k`, which `t` gives `v`.
proof fn lemma_mapa_atualizado(s: Seq<(Recurso, u32)>, t: Seq<(Recurso, u32)>, k: Recurso, v: u32)
    requires
        chaves_distintas(s),
        chaves_distintas(t),
        forall|i: int| 0 <= i < s.len() && (#[trigger] s[i]).0 != k ==> i < t.len() && t[i] == s[i],
        forall|i: int|
            0 <= i < t.len() && (#[trigger] t[i]).0 != k ==> i < s.len() && t[i] == s[i],
        exists|i: int| 0 <= i < t.len() && #[trigger] t[i] == (k, v),
    ensures
        mapa_de(t) == mapa_de(s).insert(k, v),
{
    let a = mapa_de(t);
    let b = mapa_de(s).insert(k, v);
    let w = choose|i: int| 0 <= i < t.len() && #[trigger] t[i] == (k, v);
    lemma_mapa_item(t, w);
    assert forall|x: Recurso| a.dom().contains(x) == b.dom().contains(x) by {
        if a.dom().contains(x) && x != k {
            lemma_mapa_chave(t, x);
            let p = posicao(t, x);
            assert(t[p] == s[p]);
            lemma_mapa_item(s, p);
        }
        if b.dom().contains(x) && x != k {
            lemma_mapa_chave(s, x);
            let p = posicao(s, x);
            assert(t[p] == s[p]);
            lemma_mapa_item(t, p);
        }
    }
    assert forall|x: Recurso| a.dom().contains(x) implies a[x] == b[x] by {
        if x != k {
            lemma_mapa_chave(t, x);
            let p = posicao(t, x);
            assert(t[p] == s[p]);
            lemma_mapa_item(s, p);
        }
    }
    assert(a =~= b);
}

proof fn lemma_mapa_tamanho(s: Seq<(Recurso, u32)>)
    requires
        chaves_distintas(s),
    ensures
        mapa_de(s).dom().finite(),
        mapa_de(s).dom().len() == s.len(),
    decreases s.len(),
{
    if s.len() == 0 {
        assert(mapa_de(s).dom() =~= Set::<Recurso>::empty());
    } else {
        let a = s.drop_last();
        let (k, v) = s.last();
        assert(s =~= a.push((k, v)));
        assert(chaves_distintas(a)) by {
            assert forall|i: int, j: int| 0 <= i < j < a.len() implies (#[trigger] a[i]).0 != (
            #[trigger] a[j]).0 by {
                assert(s[i].0 != s[j].0);
            }
        }
        if tem_chave(a, k) {
            let p = posicao(a, k);
            assert(s[p].0 != s[s.len() - 1].0);
        }
        lemma_mapa_tamanho(a);
        lemma_mapa_acrescenta(a, k, v);
        assert(mapa_de(s).dom() =~= mapa_de(a).dom().insert(k));
    }
}

/// A table from resource kinds to counts, in which no kind occurs twice.
#[derive(Debug)]
pub struct Recursos {
    itens: Vec<(Recurso, u32)>,
}

impl View for Recursos {
    type V = Map<Recurso, u32>;

    closed spec fn view(&self) -> Map<Recurso, u32> {
        mapa_de(self.itens@)
    }
}

impl Recursos {
    /// No kind occurs twice in the table.
    pub closed spec fn wf(&self) -> bool {
        chaves_distintas(self.itens@)
    }

    /// The empty table.
    pub fn new() -> (r: Recursos)
        ensures
            r.wf(),
            r@ == Map::<Recurso, u32>::empty(),
    {
        let r = Recursos { itens: Vec::new() };
        assert(r@ =~= Map::<Recurso, u32>::empty());
        r
    }

    fn indice_de(&self, r: &Recurso) -> (i: Option<usize>)
        requires
            self.wf(),
        ensures
            match i {
                Some(i) => i < self.itens@.len() && self.itens@[i as int].0 == *r,
                None => !self@.dom().contains(*r),
            },
    {
        let mut i: usize = 0;
        while i < self.itens.len()
            invariant
                i <= self.itens@.len(),
                forall|j: int| 0 <= j < i ==> (#[trigger] self.itens@[j]).0 != *r,
            decreases self.itens@.len() - i,
        {
            if self.itens[i].0 == *r {
                return Some(i);
            }
            i += 1;
        }
        None
    }

    /// The count listed for `r`, if the table lists `r`.
    pub fn get(&self, r: &Recurso) -> (v: Option<&u32>)
        requires
            self.wf(),
        ensures
            match v {
                Some(q) => self@.dom().contains(*r) && *q == self@[*r],
                None => !self@.dom().contains(*r),
            },
    {
        match self.indice_de(r) {
            Some(i) => {
                proof {
                    lemma_mapa_item(self.itens@, i as int);
                }
                Some(&self.itens[i].1)
            },
            None => None,
        }
    }

    /// The count for `r`, zero where the table does not list `r`.
    pub fn quantidade(&self, r: &Recurso) -> (q: u32)
        requires
            self.wf(),
        ensures
            q == quantidade(self@, *r),
    {
        match self.get(r) {
            Some(q) => *q,
            None => 0,
        }
    }

    /// Whether the table lists `r`.
    pub fn contains_key(&self, r: &Recurso) -> (b: bool)
        requires
            self.wf(),
        ensures
            b == self@.dom().contains(*r),
    {
        self.indice_de(r).is_some()
    }

    /// The number of kinds listed.
    pub fn len(&self) -> (n: usize)
        requires
            self.wf(),
        ensures
            self@.dom().finite(),
            n == self@.dom().len(),
    {
        proof {
            lemma_mapa_tamanho(self.itens@);
        }
        self.itens.len()
    }

    /// Whether the table lists nothing.
    pub fn is_empty(&self) -> (b: bool)
        requires
            self.wf(),
        ensures
            b == (self@ == Map::<Recurso, u32>::empty()),
    {
        proof {
            if self.itens@.len() == 0 {
                assert(self@ =~= Map::<Recurso, u32>::empty());
            } else {
                lemma_mapa_item(self.itens@, 0);
            }
        }
        self.itens.len() == 0
    }

    /// Lists `r` with the count `q`, in place of what was listed for `r`
    /// before, which is returned.
    pub fn insert(&mut self, r: Recurso, q: u32) -> (anterior: Option<u32>)
        requires
            old(self).wf(),
        ensures
            final(self).wf(),
            final(self)@ == old(self)@.insert(r, q),
            anterior == (if old(self)@.dom().contains(r) {
                Some(old(self)@[r])
            } else {
                None::<u32>
            }),
    {
        match self.indice_de(&r) {
            Some(i) => {
                let antes = self.itens[i].1;
                proof {
                    lemma_mapa_item(self.itens@, i as int);
                }
                self.definir(i, q);
                Some(antes)
            },
            None => {
                proof {
                    lemma_mapa_acrescenta(self.itens@, r, q);
                }
                self.itens.push((r, q));
                None
            },
        }
    }

    /// Replaces the count of the `i`-th entry.
    fn definir(&mut self, i: usize, q: u32)
        requires
            old(self).wf(),
            i < old(self).itens@.len(),
        ensures
            final(self).wf(),
            final(self).itens@ == old(self).itens@.update(i as int, (old(self).itens@[i as int].0, q)),
            final(self)@ == old(self)@.insert(old(self).itens@[i as int].0, q),
    {
        let k = self.itens[i].0;
        let ghost s = self.itens@;
        self.itens[i] = (k, q);
        proof {
            let t = self.itens@;
            assert(t == s.update(i as int, (k, q)));
            assert forall|a: int, b: int| 0 <= a < b < t.len() implies (#[trigger] t[a]).0 != (
            #[trigger] t[b]).0 by {
                assert(s[a].0 != s[b].0);
            }
            assert(t[i as int] == (k, q));
            assert forall|j: int| 0 <= j < s.len() && (#[trigger] s[j]).0 != k implies j < t.len()
                && t[j] == s[j] by {}
            assert forall|j: int| 0 <= j < t.len() && (#[trigger] t[j]).0 != k implies j < s.len()
                && t[j] == s[j] by {}
            lemma_mapa_atualizado(s, t, k, q);
        }
    }

    /// Empties the table.
    pub fn clear(&mut self)
        ensures
            final(self).wf(),
            final(self)@ == Map::<Recurso, u32>::empty(),
    {
        self.itens.clear();
        assert(self@ =~= Map::<Recurso, u32>::empty());
    }

    /// The entries of the table, each kind once, in the order in which the
    /// kinds were first listed.
    pub fn entradas(&self) -> (v: Vec<(Recurso, u32)>)
        requires
            self.wf(),
        ensures
            v@.len() == self@.dom().len(),
            forall|i: int|
                0 <= i < v@.len() ==> self@.dom().contains((#[trigger] v@[i]).0) && self@[v@[i].0]
                    == v@[i].1,
            forall|i: int, j: int|
                0 <= i < j < v@.len() ==> (#[trigger] v@[i]).0 != (#[trigger] v@[j]).0,
    {
        let mut v: Vec<(Recurso, u32)> = Vec::new();
        let mut i: usize = 0;
        while i < self.itens.len()
            invariant
                i <= self.itens@.len(),
                v@ == self.itens@.take(i as int),
            decreases self.itens@.len() - i,
        {
            v.push(self.itens[i]);
            assert(self.itens@.take(i as int).push(self.itens@[i as int]) =~= self.itens@.take(
                i + 1,
            ));
            i += 1;
        }
        proof {
            assert(self.itens@.take(i as int) =~= self.itens@);
            lemma_mapa_tamanho(self.itens@);
            assert forall|j: int| 0 <= j < v@.len() implies self@.dom().contains(
                (#[trigger] v@[j]).0,
            ) && self@[v@[j].0] == v@[j].1 by {
                lemma_mapa_item(self.itens@, j);
            }
        }
        v
    }
}

impl Recursos {
    /// Whether this ledger can grant every entry of `pedido` at once.
    pub fn comporta(&self, pedido: &Recursos) -> (b: bool)
        requires
            self.wf(),
            pedido.wf(),
        ensures
            b == cabe(pedido@, self@),
    {
        let mut j: usize = 0;
        while j < pedido.itens.len()
            invariant
                self.wf(),
                pedido.wf(),
                j <= pedido.itens@.len(),
                forall|i: int|
                    0 <= i < j ==> (#[trigger] pedido.itens@[i]).1 <= quantidade(
                        self@,
                        pedido.itens@[i].0,
                    ),
            decreases pedido.itens@.len() - j,
        {
            let (k, q) = pedido.itens[j];
            if q > self.quantidade(&k) {
                proof {
                    lemma_mapa_item(pedido.itens@, j as int);
                    assert(pedido@.dom().contains(k));
                }
                return false;
            }
            j += 1;
        }
        proof {
            assert forall|r: Recurso| #[trigger] pedido@.dom().contains(r) implies pedido@[r]
                <= quantidade(self@, r) by {
                lemma_mapa_chave(pedido.itens@, r);
                assert(pedido.itens@[posicao(pedido.itens@, r)].1 <= quantidade(self@, r));
            }
        }
        true
    }

    /// Takes every entry of `pedido` out of this ledger, or nothing at all:
    /// the ledger is debited only if it can grant the whole of `pedido`.
    pub fn reservar(&mut self, pedido: &Recursos) -> (b: bool)
        requires
            old(self).wf(),
            pedido.wf(),
        ensures
            final(self).wf(),
            b == cabe(pedido@, old(self)@),
            b ==> final(self)@ == debitado(old(self)@, pedido@),
            !b ==> final(self)@ == old(self)@,
    {
        if !self.comporta(pedido) {
            return false;
        }
        let ghost s = self.itens@;
        let mut i: usize = 0;
        while i < self.itens.len()
            invariant
                self.wf(),
                pedido.wf(),
                chaves_distintas(s),
                cabe(pedido@, mapa_de(s)),
                i <= s.len(),
                self.itens@.len() == s.len(),
                forall|a: int| 0 <= a < s.len() ==> (#[trigger] self.itens@[a]).0 == s[a].0,
                forall|a: int|
                    0 <= a < i ==> (#[trigger] self.itens@[a]).1 == s[a].1 - quantidade(
                        pedido@,
                        s[a].0,
                    ),
                forall|a: int| i <= a < s.len() ==> #[trigger] self.itens@[a] == s[a],
            decreases s.len() - i,
        {
            let (k, v) = self.itens[i];
            let q = pedido.quantidade(&k);
            proof {
                lemma_mapa_item(s, i as int);
                assert(s[i as int] == (k, v));
                if pedido@.dom().contains(k) {
                    assert(pedido@[k] <= quantidade(mapa_de(s), k));
                }
            }
            self.definir(i, v - q);
            i += 1;
        }
        proof {
            let t = self.itens@;
            let a = mapa_de(t);
            let b = debitado(mapa_de(s), pedido@);
            assert forall|x: Recurso| a.dom().contains(x) == b.dom().contains(x) by {
                if a.dom().contains(x) {
                    lemma_mapa_chave(t, x);
                    lemma_mapa_item(s, posicao(t, x));
                }
                if b.dom().contains(x) {
                    lemma_mapa_chave(s, x);
                    lemma_mapa_item(t, posicao(s, x));
                }
            }
            assert forall|x: Recurso| a.dom().contains(x) implies a[x] == b[x] by {
                lemma_mapa_chave(t, x);
                lemma_mapa_item(s, posicao(t, x));
            }
            assert(a =~= b);
        }
        true
    }

    /// Puts every entry of `devolvido` back into this ledger; a count that
    /// would pass `u32::MAX` stays there.
    pub fn creditar_saturado(&mut self, devolvido: &Recursos)
        requires
            old(self).wf(),
            devolvido.wf(),
        ensures
            final(self).wf(),
            final(self)@ == creditado_saturado(old(self)@, devolvido@),
    {
        let ghost antes = self@;
        let ghost d = devolvido.itens@;
        assert(mapa_de(d.take(0)) =~= Map::<Recurso, u32>::empty());
        assert(self@ =~= creditado_saturado(antes, mapa_de(d.take(0))));
        let mut j: usize = 0;
        while j < devolvido.itens.len()
            invariant
                self.wf(),
                devolvido.wf(),
                d == devolvido.itens@,
                j <= d.len(),
                self@ == creditado_saturado(antes, mapa_de(d.take(j as int))),
            decreases d.len() - j,
        {
            let (k, q) = devolvido.itens[j];
            let atual = self.quantidade(&k);
            let novo = if q > u32::MAX - atual {
                u32::MAX
            } else {
                atual + q
            };
            proof {
                let p = d.take(j as int);
                assert(chaves_distintas(p)) by {
                    assert forall|a: int, b: int| 0 <= a < b < p.len() implies (#[trigger] p[a]).0
                        != (#[trigger] p[b]).0 by {
                        assert(d[a].0 != d[b].0);
                    }
                }
                if tem_chave(p, k) {
                    let a = posicao(p, k);
                    assert(d[a].0 != d[j as int].0);
                }
                lemma_mapa_acrescenta(p, k, q);
                assert(p.push((k, q)) =~= d.take(j + 1));
                assert(self@.insert(k, novo) =~= creditado_saturado(
                    antes,
                    mapa_de(p).insert(k, q),
                ));
            }
            self.insert(k, novo);
            j += 1;
        }
        assert(d.take(j as int) =~= d);
    }

    /// Puts every entry of `devolvido` back into this ledger. With an empty
    /// `devolvido` the ledger stays as it is.
    pub fn liberar(&mut self, devolvido: &Recursos)
        requires
            old(self).wf(),
            devolvido.wf(),
            credito_cabe(old(self)@, devolvido@),
        ensures
            final(self).wf(),
            final(self)@ == creditado(old(self)@, devolvido@),
    {
        self.creditar_saturado(devolvido);
        assert(creditado_saturado(old(self)@, devolvido@) =~= creditado(old(self)@, devolvido@));
    }
}

impl Clone for Recursos {
    fn clone(&self) -> (r: Recursos)
        ensures
            r@ == self@,
            r.wf() == self.wf(),
    {
        let mut itens: Vec<(Recurso, u32)> = Vec::new();
        let mut i: usize = 0;
        while i < self.itens.len()
            invariant
                i <= self.itens@.len(),
                itens@ == self.itens@.take(i as int),
            decreases self.itens@.len() - i,
        {
            itens.push(self.itens[i]);
            assert(self.itens@.take(i as int).push(self.itens@[i as int]) =~= self.itens@.take(
                i + 1,
            ));
            i += 1;
        }
        assert(self.itens@.take(i as int) =~= self.itens@);
        Recursos { itens }
    }
}

} // verus!
