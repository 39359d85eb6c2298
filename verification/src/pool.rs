//! The gene pool: for every gene the alleles that were seen filling it, each
//! with a running score, and the rebuilding of a genome from the best of
//! them.

use crate::assoc::distinct;
use crate::assoc::find;
use crate::assoc::has_key;
use crate::assoc::Key;
use crate::assoc::keys_distinct;
use crate::assoc::lemma_first_is_position;
use crate::assoc::lemma_map_keys;
use crate::assoc::lemma_position_bound;
use crate::assoc::lemma_put;
use crate::assoc::position;
use crate::assoc::put;
use vstd::prelude::*;

verus! {

/// The running score of an allele: the fitness it was seen with, summed,
/// the number of times it was seen, and the average of the two.
#[derive(Clone, Copy, Debug, PartialEq, Eq, Structural)]
pub struct Score {
    pub avg: u64,
    pub tot: u64,
    pub count: u64,
}

impl Score {
    /// The average is the sum over the count, zero before the first sample.
    pub open spec fn wf(&self) -> bool {
        if self.count == 0 {
            self.avg == 0 && self.tot == 0
        } else {
            self.avg == self.tot / self.count
        }
    }

    /// Whether one more sample fits the counters.
    pub open spec fn can_record(&self, score: u32) -> bool {
        self.tot + score <= u64::MAX && self.count < u64::MAX
    }

    /// The score with one more sample.
    pub open spec fn with_sample(self, score: u32) -> Score {
        Score {
            avg: ((self.tot + score) / (self.count + 1)) as u64,
            tot: (self.tot + score) as u64,
            count: (self.count + 1) as u64,
        }
    }

    /// The score with one more sample if it fits; a score whose counters are
    /// full stays as it is.
    pub open spec fn sampled(self, score: u32) -> Score {
        if self.can_record(score) {
            self.with_sample(score)
        } else {
            self
        }
    }

    /// Whether the average is the sum over the count.
    pub fn check(&self) -> (ok: bool)
        ensures
            ok == self.wf(),
    {
        if self.count == 0 {
            self.avg == 0 && self.tot == 0
        } else {
            self.avg == self.tot / self.count
        }
    }

    /// The score before the first sample.
    pub fn new() -> (s: Score)
        ensures
            s == (Score { avg: 0, tot: 0, count: 0 }),
            s.wf(),
    {
        Score { avg: 0, tot: 0, count: 0 }
    }

    /// Takes one more sample into the average.
    pub fn record(&mut self, score: u32)
        requires
            old(self).can_record(score),
        ensures
            *final(self) == old(self).with_sample(score),
            final(self).wf(),
    {
        self.tot = self.tot + score as u64;
        self.count = self.count + 1;
        self.avg = self.tot / self.count;
    }

    /// Takes one more sample into the average if the counters have room, and
    /// tells whether they had.
    pub fn try_record(&mut self, score: u32) -> (taken: bool)
        ensures
            taken == old(self).can_record(score),
            *final(self) == old(self).sampled(score),
            old(self).wf() ==> final(self).wf(),
    {
        if self.count < u64::MAX && self.tot <= u64::MAX - score as u64 {
            self.record(score);
            true
        } else {
            false
        }
    }
}

/// The identity of an allele, derived from its content.
pub type AlleleID = u64;

/// One way of filling a gene.
pub trait Allele<G>: Sized {
    /// The allele is well formed.
    spec fn valid(&self) -> bool;

    /// The identity of the allele, derived from its content.
    spec fn allele_id(&self) -> AlleleID;

    /// The genes that the allele needs beside its own.
    spec fn gene_requirements(&self) -> Seq<G>;

    /// The identity of the allele, derived from its content.
    fn get_allele_id(&self) -> (id: AlleleID)
        ensures
            id == self.allele_id(),
    ;

    /// The genes that the allele needs beside its own.
    fn get_gene_requirements(&self) -> (genes: Vec<G>)
        ensures
            genes@ == self.gene_requirements(),
    ;

    /// Whether the allele is well formed.
    fn check(&self) -> (ok: bool)
        ensures
            ok == self.valid(),
    ;
}

/// The alleles on record for one gene, by identity.
pub type Table<A> = Seq<(AlleleID, (A, Score))>;

/// The pool as a value: the table of every gene.
pub type PoolView<G, A> = Seq<(G, Table<A>)>;

/// For every gene the alleles that were seen filling it, with their scores.
pub struct GenePool<G, A> {
    pub genes: Vec<(G, Vec<(AlleleID, (A, Score))>)>,
}

impl<G, A> View for GenePool<G, A> {
    type V = PoolView<G, A>;

    open spec fn view(&self) -> PoolView<G, A> {
        self.genes@.map_values(|e: (G, Vec<(AlleleID, (A, Score))>)| (e.0, e.1@))
    }
}

/// The table of a gene; empty if the pool does not know the gene.
pub open spec fn table_of<G, A>(pool: PoolView<G, A>, gene: G) -> Table<A> {
    if has_key(pool, gene) {
        pool[position(pool, gene)].1
    } else {
        Seq::empty()
    }
}

/// The table with one more observation of an allele: the allele is entered
/// with an empty score if the table did not hold it, and its score takes the
/// sample.
pub open spec fn observed<G, A: Allele<G>>(table: Table<A>, allele: A, fitness: u32) -> Table<A> {
    let id = allele.allele_id();
    if has_key(table, id) {
        let p = position(table, id);
        table.update(p, (id, (table[p].1.0, table[p].1.1.sampled(fitness))))
    } else {
        table.push((id, (allele, (Score { avg: 0, tot: 0, count: 0 }).sampled(fitness))))
    }
}

/// The pool with one more observation of an allele of a gene.
pub open spec fn recorded<G, A: Allele<G>>(
    pool: PoolView<G, A>,
    gene: G,
    allele: A,
    fitness: u32,
) -> PoolView<G, A> {
    put(pool, gene, observed(table_of(pool, gene), allele, fitness))
}

/// No gene and no allele of a gene is entered twice, every allele stands
/// under its own identity, and every score is an average.
pub open spec fn pool_wf<G, A: Allele<G>>(pool: PoolView<G, A>) -> bool {
    &&& keys_distinct(pool)
    &&& forall|i: int| 0 <= i < pool.len() ==> table_wf::<G, A>((#[trigger] pool[i]).1)
}

/// No allele is entered twice, every allele is well formed and stands under
/// its own identity, and every score is an average.
pub open spec fn table_wf<G, A: Allele<G>>(table: Table<A>) -> bool {
    &&& keys_distinct(table)
    &&& forall|j: int|
        0 <= j < table.len() ==> (#[trigger] table[j]).0 == table[j].1.0.allele_id()
            && table[j].1.1.wf() && table[j].1.0.valid()
}

/// The place of the best allele among the first `n` of a table: the one
/// with the highest average, the later one of two that share it.
pub open spec fn best_of<A>(table: Table<A>, n: int) -> int
    decreases n,
{
    if n <= 1 {
        0
    } else {
        let b = best_of(table, n - 1);
        if table[b].1.1.avg > table[n - 1].1.1.avg {
            b
        } else {
            n - 1
        }
    }
}

/// The best allele has the highest average.
pub proof fn lemma_best_of<A>(table: Table<A>, n: int)
    requires
        1 <= n <= table.len(),
    ensures
        0 <= best_of(table, n) < n,
        forall|k: int| 0 <= k < n ==> (#[trigger] table[k]).1.1.avg <= table[best_of(table, n)].1.1.avg,
    decreases n,
{
    if n > 1 {
        lemma_best_of(table, n - 1);
    }
}

/// Observing an allele keeps a table well formed.
pub proof fn lemma_observed_wf<G, A: Allele<G>>(table: Table<A>, allele: A, fitness: u32)
    requires
        table_wf::<G, A>(table),
        allele.valid(),
    ensures
        table_wf::<G, A>(observed::<G, A>(table, allele, fitness)),
{
    let id = allele.allele_id();
    let after = observed::<G, A>(table, allele, fitness);
    if has_key(table, id) {
        lemma_position_bound(table, id);
        let p = position(table, id);
        assert forall|i: int, j: int| 0 <= i < j < after.len() implies (#[trigger] after[i]).0 != (
        #[trigger] after[j]).0 by {
            assert(table[i].0 != table[j].0);
        }
        assert forall|j: int| 0 <= j < after.len() implies (#[trigger] after[j]).0
            == after[j].1.0.allele_id() && after[j].1.1.wf() && after[j].1.0.valid() by {
            assert(table[j].0 == table[j].1.0.allele_id() && table[j].1.1.wf()
                && table[j].1.0.valid());
        }
    } else {
        assert forall|i: int, j: int| 0 <= i < j < after.len() implies (#[trigger] after[i]).0 != (
        #[trigger] after[j]).0 by {
            if j < table.len() {
                assert(table[i].0 != table[j].0);
            } else {
                assert(table[i].0 != id);
            }
        }
        assert forall|j: int| 0 <= j < after.len() implies (#[trigger] after[j]).0
            == after[j].1.0.allele_id() && after[j].1.1.wf() && after[j].1.0.valid() by {
            if j < table.len() {
                assert(table[j].0 == table[j].1.0.allele_id() && table[j].1.1.wf()
                && table[j].1.0.valid());
            }
        }
    }
}

/// Recording an observation keeps a pool well formed.
pub proof fn lemma_recorded_wf<G, A: Allele<G>>(
    pool: PoolView<G, A>,
    gene: G,
    allele: A,
    fitness: u32,
)
    requires
        pool_wf(pool),
        allele.valid(),
    ensures
        pool_wf(recorded(pool, gene, allele, fitness)),
{
    let table = table_of(pool, gene);
    let after = recorded(pool, gene, allele, fitness);
    if has_key(pool, gene) {
        lemma_position_bound(pool, gene);
        assert(table_wf::<G, A>(pool[position(pool, gene)].1));
    }
    lemma_observed_wf::<G, A>(table, allele, fitness);
    lemma_put(pool, gene, observed::<G, A>(table, allele, fitness));
    assert forall|i: int| 0 <= i < after.len() implies table_wf::<G, A>(
        (#[trigger] after[i]).1,
    ) by {
        if has_key(pool, gene) {
            if i != position(pool, gene) {
                assert(after[i] == pool[i]);
            }
        } else {
            if i < pool.len() {
                assert(after[i] == pool[i]);
            }
        }
    }
}

impl<G: Key, A: Allele<G>> GenePool<G, A> {
    /// The pool is well formed.
    pub open spec fn wf(&self) -> bool {
        pool_wf(self@)
    }

    /// A pool that knows no gene.
    pub fn new() -> (pool: Self)
        ensures
            pool@ == Seq::<(G, Table<A>)>::empty(),
            pool.wf(),
    {
        let pool = GenePool { genes: Vec::new() };
        assert(pool@ =~= Seq::<(G, Table<A>)>::empty());
        pool
    }

    /// The place of a gene in the pool, if the pool knows it.
    fn find_gene(&self, gene: &G) -> (found: Option<usize>)
        ensures
            has_key(self@, *gene) == found.is_some(),
            position(self@, *gene) == match found {
                Some(i) => i as int,
                None => -1,
            },
            found.is_some() ==> found.unwrap() < self.genes.len()
                && self.genes[found.unwrap() as int].0 == *gene,
    {
        let found = find(&self.genes, gene);
        proof {
            let raw = self.genes@;
            let pool = self@;
            match found {
                Some(i) => {
                    assert(pool[i as int].0 == *gene);
                    assert forall|j: int| 0 <= j < i implies (#[trigger] pool[j]).0 != *gene by {
                        assert(raw[j].0 != *gene);
                    }
                    lemma_first_is_position(pool, *gene, i as int);
                },
                None => {
                    if has_key(pool, *gene) {
                        let j = choose|j: int| 0 <= j < pool.len() && (#[trigger] pool[j]).0 == *gene;
                        assert(raw[j].0 == *gene);
                    }
                },
            }
        }
        found
    }

    /// Records that `allele` was seen filling `gene` with the given
    /// fitness: the gene and the allele are entered if they are new, and the
    /// allele's score takes the sample. A score whose counters are full
    /// stays as it is.
    pub fn record(&mut self, gene: &G, allele: A, fitness: u32)
        requires
            old(self).wf(),
            allele.valid(),
        ensures
            final(self)@ == recorded(old(self)@, *gene, allele, fitness),
            final(self).wf(),
    {
        let ghost before = self@;
        let ghost table = table_of(before, *gene);
        proof {
            lemma_recorded_wf(before, *gene, allele, fitness);
        }
        let gi: usize = match self.find_gene(gene) {
            Some(i) => i,
            None => {
                self.genes.push((*gene, Vec::new()));
                self.genes.len() - 1
            },
        };
        assert(self.genes[gi as int].1@ =~= table);
        let id = allele.get_allele_id();
        match find(&self.genes[gi].1, &id) {
            Some(ai) => {
                self.genes[gi].1[ai].1.1.try_record(fitness);
            },
            None => {
                let mut score = Score::new();
                score.try_record(fitness);
                self.genes[gi].1.push((id, (allele, score)));
            },
        }
        assert(self.genes[gi as int].1@ =~= observed::<G, A>(table, allele, fitness));
        assert(self@ =~= recorded(before, *gene, allele, fitness));
    }

    /// The genes that the pool knows, in the order in which it met them.
    pub fn get_genes(&self) -> (genes: Vec<G>)
        ensures
            genes@ == self@.map_values(|e: (G, Table<A>)| e.0),
    {
        let mut genes: Vec<G> = Vec::new();
        let mut i: usize = 0;
        while i < self.genes.len()
            invariant
                i <= self.genes.len(),
                genes@ == self@.map_values(|e: (G, Table<A>)| e.0).take(i as int),
            decreases self.genes.len() - i,
        {
            genes.push(self.genes[i].0);
            assert(genes@ =~= self@.map_values(|e: (G, Table<A>)| e.0).take(i + 1));
            i += 1;
        }
        assert(self@.map_values(|e: (G, Table<A>)| e.0).take(i as int) =~= self@.map_values(
            |e: (G, Table<A>)| e.0,
        ));
        genes
    }

    /// The place of the best allele of a table with at least one allele.
    fn best(table: &Vec<(AlleleID, (A, Score))>) -> (b: usize)
        requires
            table.len() > 0,
        ensures
            b == best_of(table@, table.len() as int),
            b < table.len(),
    {
        let mut b: usize = 0;
        let mut n: usize = 1;
        while n < table.len()
            invariant
                1 <= n <= table.len(),
                b == best_of(table@, n as int),
                b < n,
            decreases table.len() - n,
        {
            if !(table[b].1.1.avg > table[n].1.1.avg) {
                b = n;
            }
            n += 1;
        }
        b
    }
}

/// How many of the first `n` marks are not set.
pub open spec fn unmarked(marks: Seq<bool>, n: int) -> nat
    decreases n,
{
    if n <= 0 {
        0
    } else {
        unmarked(marks, n - 1) + if marks[n - 1] {
            0nat
        } else {
            1nat
        }
    }
}

/// Setting a mark that was not set leaves one mark fewer unset.
pub proof fn lemma_mark(marks: Seq<bool>, i: int, n: int)
    requires
        0 <= i < marks.len(),
        0 <= n <= marks.len(),
        !marks[i],
    ensures
        unmarked(marks.update(i, true), n) == if n > i {
            unmarked(marks, n) - 1
        } else {
            unmarked(marks, n) as int
        },
        n > i ==> unmarked(marks, n) > 0,
    decreases n,
{
    if n > 0 {
        lemma_mark(marks, i, n - 1);
    }
}

/// The pool has an allele on record for the gene.
pub open spec fn resolvable<G, A>(pool: PoolView<G, A>, gene: G) -> bool {
    table_of(pool, gene).len() > 0
}

/// The allele with the highest average that the pool has on record for
/// the gene.
pub open spec fn best_allele<G, A>(pool: PoolView<G, A>, gene: G) -> A {
    let table = table_of(pool, gene);
    table[best_of(table, table.len() as int)].1.0
}

/// The allele chosen for entry `j` needs the gene `gene`.
pub open spec fn needs<G, A: Allele<G>>(out: Seq<(G, &A)>, j: int, gene: G) -> bool {
    out[j].1.gene_requirements().contains(gene)
}

/// Every entry from `from` on has what it needs: each gene that its allele
/// requires and that the pool can fill is in the list.
pub open spec fn closed_from<G, A: Allele<G>>(
    pool: PoolView<G, A>,
    out: Seq<(G, &A)>,
    from: int,
) -> bool {
    forall|k: int, q: int|
        from <= k < out.len() && 0 <= q < out[k].1.gene_requirements().len() && resolvable(
            pool,
            #[trigger] out[k].1.gene_requirements()[q],
        ) ==> has_key(out, out[k].1.gene_requirements()[q])
}

/// Every entry from `from` on is there for a reason: it fills one of the
/// `roots`, or a gene that an entry between `from` and itself needs.
pub open spec fn rooted_from<G, A: Allele<G>>(out: Seq<(G, &A)>, from: int, roots: Seq<G>) -> bool {
    forall|k: int|
        from <= k < out.len() ==> roots.contains((#[trigger] out[k]).0) || exists|j: int|
            from <= j < k && #[trigger] needs(out, j, out[k].0)
}

/// The list fills each gene once, with the best allele that the pool has
/// for it, and the marks tell which genes of the pool are in the list.
pub open spec fn resolving<G, A: Allele<G>>(
    pool: PoolView<G, A>,
    marks: Seq<bool>,
    out: Seq<(G, &A)>,
) -> bool {
    &&& marks.len() == pool.len()
    &&& keys_distinct(out)
    &&& forall|i: int| 0 <= i < pool.len() ==> marks[i] == has_key(out, (#[trigger] pool[i]).0)
    &&& forall|k: int|
        0 <= k < out.len() ==> resolvable(pool, (#[trigger] out[k]).0) && *out[k].1 == best_allele(
            pool,
            out[k].0,
        )
}

/// The list with every allele as a value of its own.
pub open spec fn owned<G, A>(out: Seq<(G, &A)>) -> Seq<(G, A)> {
    out.map_values(|e: (G, &A)| (e.0, *e.1))
}

/// The list after `gene` was resolved into it: a gene that is in the list
/// already, or that the pool cannot fill, leaves the list as it is; any
/// other is entered with its best allele, and then the genes that this
/// allele requires are resolved in their order. `fuel` bounds the depth of
/// the walk; `built` gives it one more than the number of genes in the pool.
pub open spec fn resolved<G, A: Allele<G>>(
    pool: PoolView<G, A>,
    gene: G,
    out: Seq<(G, A)>,
    fuel: nat,
) -> Seq<(G, A)>
    decreases fuel, 0nat,
{
    if fuel == 0 || has_key(out, gene) || !resolvable(pool, gene) {
        out
    } else {
        let allele = best_allele(pool, gene);
        resolved_all(
            pool,
            allele.gene_requirements(),
            out.push((gene, allele)),
            (fuel - 1) as nat,
            allele.gene_requirements().len(),
        )
    }
}

/// The list after the first `n` of the genes were resolved into it, one
/// after the other.
pub open spec fn resolved_all<G, A: Allele<G>>(
    pool: PoolView<G, A>,
    genes: Seq<G>,
    out: Seq<(G, A)>,
    fuel: nat,
    n: nat,
) -> Seq<(G, A)>
    decreases fuel, n,
{
    if n == 0 {
        out
    } else {
        resolved(pool, genes[n - 1], resolved_all(pool, genes, out, fuel, (n - 1) as nat), fuel)
    }
}

/// What the pool gives for the requested genes.
pub open spec fn built<G, A: Allele<G>>(pool: PoolView<G, A>, genes: Seq<G>) -> Seq<(G, A)> {
    resolved_all(pool, genes, Seq::empty(), (pool.len() + 1) as nat, genes.len())
}

/// No more marks are unset than there are.
pub proof fn lemma_unmarked_bound(marks: Seq<bool>, n: int)
    requires
        0 <= n,
    ensures
        unmarked(marks, n) <= n,
    decreases n,
{
    if n > 0 {
        lemma_unmarked_bound(marks, n - 1);
    }
}

/// A key of a list is a key of every list that extends it.
pub proof fn lemma_has_key_extends<K, V>(short: Seq<(K, V)>, long: Seq<(K, V)>, k: K)
    requires
        short.len() <= long.len(),
        forall|i: int| 0 <= i < short.len() ==> #[trigger] long[i] == short[i],
        has_key(short, k),
    ensures
        has_key(long, k),
{
    let i = choose|i: int| 0 <= i < short.len() && (#[trigger] short[i]).0 == k;
    assert(long[i].0 == k);
}

impl<G: Key, A: Allele<G>> GenePool<G, A> {
    /// Resolves `gene` and everything that it depends on into `ret`: the
    /// best allele of the gene is entered, then the genes that this allele
    /// requires are resolved in turn. A gene that is in `ret` already, or
    /// that the pool cannot fill, is passed over, so the walk ends on cyclic
    /// requirements too.
    fn require<'a>(
        &'a self,
        gene: &G,
        marks: &mut Vec<bool>,
        ret: &mut Vec<(G, &'a A)>,
        Ghost(fuel): Ghost<nat>,
    )
        requires
            self.wf(),
            resolving(self@, old(marks)@, old(ret)@),
            fuel > unmarked(old(marks)@, old(marks).len() as int),
        ensures
            resolving(self@, final(marks)@, final(ret)@),
            owned(final(ret)@) == resolved(self@, *gene, owned(old(ret)@), fuel),
            old(ret).len() <= final(ret).len(),
            forall|k: int| 0 <= k < old(ret).len() ==> #[trigger] final(ret)@[k] == old(ret)@[k],
            resolvable(self@, *gene) ==> has_key(final(ret)@, *gene),
            closed_from(self@, final(ret)@, old(ret).len() as int),
            rooted_from(final(ret)@, old(ret).len() as int, seq![*gene]),
            unmarked(final(marks)@, final(marks).len() as int) <= unmarked(
                old(marks)@,
                old(marks).len() as int,
            ),
        decreases unmarked(old(marks)@, old(marks).len() as int),
    {
        let ghost pool = self@;
        let ghost base = ret.len() as int;
        let ghost roots = seq![*gene];
        assert(roots[0] == *gene);
        proof {
            lemma_map_keys(ret@, |e: (G, &A)| (e.0, *e.1), *gene);
        }
        let gi: usize = match self.find_gene(gene) {
            None => {
                return ;
            },
            Some(i) => i,
        };
        proof {
            assert(pool[gi as int] == (self.genes[gi as int].0, self.genes[gi as int].1@));
            assert(table_of(pool, *gene) == self.genes[gi as int].1@);
        }
        if marks[gi] {
            assert(has_key(ret@, pool[gi as int].0));
            return ;
        }
        if self.genes[gi].1.len() == 0 {
            return ;
        }
        let b = Self::best(&self.genes[gi].1);
        let allele: &'a A = &self.genes[gi].1[b].1.0;
        let ghost marks0 = marks@;
        let ghost ret0 = ret@;
        ret.push((*gene, allele));
        marks[gi] = true;
        let ghost start = owned(ret0).push((*gene, *allele));
        proof {
            lemma_mark(marks0, gi as int, marks0.len() as int);
            assert(!has_key(ret0, pool[gi as int].0));
            assert(!has_key(ret0, *gene));
            assert(owned(ret@) =~= start);
            assert(*allele == best_allele(pool, *gene));
            assert(resolved(pool, *gene, owned(ret0), fuel) == resolved_all(
                pool,
                allele.gene_requirements(),
                start,
                (fuel - 1) as nat,
                allele.gene_requirements().len(),
            ));
            assert forall|i: int| 0 <= i < pool.len() implies marks@[i] == has_key(
                ret@,
                (#[trigger] pool[i]).0,
            ) by {
                if i == gi {
                    assert(ret@[base].0 == pool[i].0);
                } else {
                    assert(pool[i].0 != pool[gi as int].0);
                    if has_key(ret0, pool[i].0) {
                        lemma_has_key_extends(ret0, ret@, pool[i].0);
                    }
                    if has_key(ret@, pool[i].0) {
                        let k = choose|k: int|
                            0 <= k < ret@.len() && (#[trigger] ret@[k]).0 == pool[i].0;
                        assert(ret0[k].0 == pool[i].0);
                    }
                }
            }
            assert forall|i: int, j: int| 0 <= i < j < ret@.len() implies (#[trigger] ret@[i]).0 != (
            #[trigger] ret@[j]).0 by {
                if j < base {
                    assert(ret0[i].0 != ret0[j].0);
                } else {
                    assert(ret0[i].0 != *gene);
                }
            }
            assert forall|k: int| 0 <= k < ret@.len() implies resolvable(
                pool,
                (#[trigger] ret@[k]).0,
            ) && *ret@[k].1 == best_allele(pool, ret@[k].0) by {
                if k < base {
                    assert(ret@[k] == ret0[k]);
                }
            }
            assert(roots.contains(ret@[base].0));
        }
        let reqs = allele.get_gene_requirements();
        let mut r: usize = 0;
        while r < reqs.len()
            invariant
                self.wf(),
                pool == self@,
                r <= reqs.len(),
                reqs@ == allele.gene_requirements(),
                resolving(pool, marks@, ret@),
                base == old(ret).len(),
                base < ret.len(),
                forall|k: int| 0 <= k < base ==> #[trigger] ret@[k] == old(ret)@[k],
                ret@[base] == (*gene, allele),
                roots == seq![*gene],
                forall|q: int|
                    0 <= q < r && resolvable(pool, #[trigger] reqs[q]) ==> has_key(ret@, reqs[q]),
                closed_from(pool, ret@, base + 1),
                rooted_from(ret@, base, roots),
                unmarked(marks@, marks.len() as int) < unmarked(
                    old(marks)@,
                    old(marks).len() as int,
                ),
                fuel > unmarked(old(marks)@, old(marks).len() as int),
                owned(ret@) == resolved_all(pool, reqs@, start, (fuel - 1) as nat, r as nat),
            decreases reqs.len() - r,
        {
            let ghost before = ret@;
            let ghost p = ret.len() as int;
            self.require(&reqs[r], marks, ret, Ghost((fuel - 1) as nat));
            proof {
                let out = ret@;
                let req = reqs[r as int];
                assert(allele.gene_requirements()[r as int] == req);
                assert(out[base] == before[base]);
                assert(needs(out, base, req));
                assert forall|q: int|
                    0 <= q < r + 1 && resolvable(pool, #[trigger] reqs[q]) implies has_key(
                    out,
                    reqs[q],
                ) by {
                    if q < r {
                        lemma_has_key_extends(before, out, reqs[q]);
                    }
                }
                assert forall|k: int, q: int|
                    base + 1 <= k < out.len() && 0 <= q < out[k].1.gene_requirements().len()
                        && resolvable(
                        pool,
                        #[trigger] out[k].1.gene_requirements()[q],
                    ) implies has_key(out, out[k].1.gene_requirements()[q]) by {
                    if k < p {
                        assert(out[k] == before[k]);
                        assert(has_key(before, before[k].1.gene_requirements()[q]));
                        lemma_has_key_extends(before, out, out[k].1.gene_requirements()[q]);
                    }
                }
                assert forall|k: int| base <= k < out.len() implies roots.contains(
                    (#[trigger] out[k]).0,
                ) || exists|j: int| base <= j < k && #[trigger] needs(out, j, out[k].0) by {
                    if k < p {
                        assert(out[k] == before[k]);
                        if !roots.contains(before[k].0) {
                            let j = choose|j: int|
                                base <= j < k && #[trigger] needs(before, j, before[k].0);
                            assert(out[j] == before[j]);
                            assert(needs(out, j, out[k].0));
                        }
                    } else {
                        if seq![req].contains(out[k].0) {
                            assert(out[k].0 == req);
                            assert(needs(out, base, out[k].0));
                        } else {
                            let j = choose|j: int|
                                p <= j < k && #[trigger] needs(out, j, out[k].0);
                            assert(base <= j < k && needs(out, j, out[k].0));
                        }
                    }
                }
            }
            r += 1;
        }
        proof {
            let out = ret@;
            assert(has_key(out, *gene)) by {
                assert(out[base].0 == *gene);
            }
            assert forall|k: int, q: int|
                base <= k < out.len() && 0 <= q < out[k].1.gene_requirements().len() && resolvable(
                    pool,
                    #[trigger] out[k].1.gene_requirements()[q],
                ) implies has_key(out, out[k].1.gene_requirements()[q]) by {
                if k == base {
                    assert(reqs[q] == out[k].1.gene_requirements()[q]);
                }
            }
        }
    }

    /// Rebuilds a genome for the requested genes: each of them that the
    /// pool can fill, and each gene that a chosen allele requires and that
    /// the pool can fill, is bound once to the allele with the highest
    /// average on record. Nothing else is in the result: every entry fills a
    /// requested gene or one that an entry before it requires.
    pub fn build<'a>(&'a self, genes: &Vec<G>) -> (ret: Vec<(G, &'a A)>)
        requires
            self.wf(),
        ensures
            keys_distinct(ret@),
            forall|k: int|
                0 <= k < ret.len() ==> resolvable(self@, (#[trigger] ret@[k]).0) && *ret@[k].1
                    == best_allele(self@, ret@[k].0) && ret@[k].1.valid(),
            forall|i: int|
                0 <= i < genes.len() && resolvable(self@, #[trigger] genes[i]) ==> has_key(
                    ret@,
                    genes[i],
                ),
            closed_from(self@, ret@, 0),
            rooted_from(ret@, 0, genes@),
            owned(ret@) == built(self@, genes@),
    {
        let ghost pool = self@;
        let ghost fuel = (pool.len() + 1) as nat;
        let mut marks: Vec<bool> = Vec::new();
        let mut i: usize = 0;
        while i < self.genes.len()
            invariant
                i <= self.genes.len(),
                marks.len() == i,
                forall|j: int| 0 <= j < i ==> !#[trigger] marks[j],
            decreases self.genes.len() - i,
        {
            marks.push(false);
            i += 1;
        }
        let mut ret: Vec<(G, &'a A)> = Vec::new();
        let mut g: usize = 0;
        proof {
            assert(owned(ret@) =~= Seq::<(G, A)>::empty());
            assert forall|gene: G| resolvable(pool, gene) implies (#[trigger] best_allele(
                pool,
                gene,
            )).valid() by {
                lemma_position_bound(pool, gene);
                let table = table_of(pool, gene);
                lemma_best_of(table, table.len() as int);
                assert(table_wf::<G, A>(pool[position(pool, gene)].1));
                assert(table[best_of(table, table.len() as int)].1.0.valid());
            }
        }
        while g < genes.len()
            invariant
                self.wf(),
                pool == self@,
                g <= genes.len(),
                resolving(pool, marks@, ret@),
                forall|i: int|
                    0 <= i < g && resolvable(pool, #[trigger] genes[i]) ==> has_key(ret@, genes[i]),
                closed_from(pool, ret@, 0),
                rooted_from(ret@, 0, genes@),
                fuel == pool.len() + 1,
                owned(ret@) == resolved_all(pool, genes@, Seq::empty(), fuel, g as nat),
            decreases genes.len() - g,
        {
            let ghost before = ret@;
            let ghost p = ret.len() as int;
            proof {
                lemma_unmarked_bound(marks@, marks.len() as int);
            }
            self.require(&genes[g], &mut marks, &mut ret, Ghost(fuel));
            proof {
                let out = ret@;
                let gene = genes[g as int];
                assert forall|i: int|
                    0 <= i < g + 1 && resolvable(pool, #[trigger] genes[i]) implies has_key(
                    out,
                    genes[i],
                ) by {
                    if i < g {
                        lemma_has_key_extends(before, out, genes[i]);
                    }
                }
                assert forall|k: int, q: int|
                    0 <= k < out.len() && 0 <= q < out[k].1.gene_requirements().len() && resolvable(
                        pool,
                        #[trigger] out[k].1.gene_requirements()[q],
                    ) implies has_key(out, out[k].1.gene_requirements()[q]) by {
                    if k < p {
                        assert(out[k] == before[k]);
                        assert(has_key(before, before[k].1.gene_requirements()[q]));
                        lemma_has_key_extends(before, out, out[k].1.gene_requirements()[q]);
                    }
                }
                assert forall|k: int| 0 <= k < out.len() implies genes@.contains(
                    (#[trigger] out[k]).0,
                ) || exists|j: int| 0 <= j < k && #[trigger] needs(out, j, out[k].0) by {
                    if k < p {
                        assert(out[k] == before[k]);
                        if !genes@.contains(before[k].0) {
                            let j = choose|j: int|
                                0 <= j < k && #[trigger] needs(before, j, before[k].0);
                            assert(out[j] == before[j]);
                            assert(needs(out, j, out[k].0));
                        }
                    } else {
                        if seq![gene].contains(out[k].0) {
                            assert(out[k].0 == gene);
                            assert(genes@[g as int] == gene);
                        } else {
                            let j = choose|j: int|
                                p <= j < k && #[trigger] needs(out, j, out[k].0);
                            assert(0 <= j < k && needs(out, j, out[k].0));
                        }
                    }
                }
            }
            g += 1;
        }
        ret
    }
}

/// A table is thinned out once it holds this many alleles.
pub const PRUNE_SIZE: usize = 3;

/// The averages of the first `n` alleles of a table, summed.
pub open spec fn avg_sum<A>(table: Table<A>, n: int) -> int
    decreases n,
{
    if n <= 0 {
        0
    } else {
        avg_sum(table, n - 1) + table[n - 1].1.1.avg
    }
}

/// The mean of the averages of a table that is not empty.
pub open spec fn mean_avg<A>(table: Table<A>) -> int {
    avg_sum(table, table.len() as int) / (table.len() as int)
}

/// Those of the first `n` alleles whose average is not below `mean`, in
/// their order.
pub open spec fn kept_alleles<A>(table: Table<A>, mean: int, n: int) -> Table<A>
    decreases n,
{
    if n <= 0 {
        Seq::empty()
    } else if table[n - 1].1.1.avg >= mean {
        kept_alleles(table, mean, n - 1).push(table[n - 1])
    } else {
        kept_alleles(table, mean, n - 1)
    }
}

/// A table after thinning: one of `PRUNE_SIZE` alleles or more loses those
/// whose average is strictly below the mean of the averages.
pub open spec fn pruned_table<A>(table: Table<A>) -> Table<A> {
    if table.len() < PRUNE_SIZE {
        table
    } else {
        kept_alleles(table, mean_avg(table), table.len() as int)
    }
}

/// Every allele that is kept is one of the table, and a thinned table is
/// well formed if the table was.
pub proof fn lemma_kept_alleles<G, A: Allele<G>>(table: Table<A>, mean: int, n: int)
    requires
        0 <= n <= table.len(),
    ensures
        forall|p: int|
            0 <= p < kept_alleles(table, mean, n).len() ==> exists|k: int|
                0 <= k < n && #[trigger] kept_alleles(table, mean, n)[p] == table[k],
        table_wf::<G, A>(table) ==> table_wf::<G, A>(kept_alleles(table, mean, n)),
        kept_alleles(table, mean, n).len() <= n,
    decreases n,
{
    if n > 0 {
        lemma_kept_alleles::<G, A>(table, mean, n - 1);
        let before = kept_alleles(table, mean, n - 1);
        let after = kept_alleles(table, mean, n);
        assert forall|p: int| 0 <= p < after.len() implies exists|k: int|
            0 <= k < n && #[trigger] after[p] == table[k] by {
            if p < before.len() {
                let k = choose|k: int| 0 <= k < n - 1 && before[p] == table[k];
                assert(after[p] == table[k]);
            } else {
                assert(after[p] == table[n - 1]);
            }
        }
        if table_wf::<G, A>(table) {
            assert forall|p: int, q: int| 0 <= p < q < after.len() implies (#[trigger] after[p]).0
                != (#[trigger] after[q]).0 by {
                let kp = choose|k: int| 0 <= k < n - 1 && before[p] == table[k];
                if q < before.len() {
                    assert(before[p].0 != before[q].0);
                } else {
                    assert(table[kp].0 != table[n - 1].0);
                }
            }
            assert forall|j: int| 0 <= j < after.len() implies (#[trigger] after[j]).0
                == after[j].1.0.allele_id() && after[j].1.1.wf() by {
                let k = choose|k: int| 0 <= k < n && after[j] == table[k];
                assert(table[k].0 == table[k].1.0.allele_id() && table[k].1.1.wf()
                    && table[k].1.0.valid());
            }
        }
    }
}

/// Thins out one table.
fn prune_table<G, A: Allele<G>>(table: &mut Vec<(AlleleID, (A, Score))>)
    requires
        table_wf::<G, A>(old(table)@),
    ensures
        final(table)@ == pruned_table(old(table)@),
        table_wf::<G, A>(final(table)@),
{
    let n: usize = table.len();
    if n < PRUNE_SIZE {
        return ;
    }
    let ghost orig = table@;
    let mut sum: u128 = 0;
    let mut k: usize = 0;
    while k < n
        invariant
            k <= n,
            n == table.len(),
            table@ == orig,
            sum == avg_sum(orig, k as int),
            sum <= k * 0xffff_ffff_ffff_ffff,
        decreases n - k,
    {
        sum = sum + table[k].1.1.avg as u128;
        k += 1;
    }
    let mean: u128 = sum / (n as u128);
    let mut i: usize = 0;
    let ghost mut c: int = 0;
    while i < table.len()
        invariant
            0 <= c <= orig.len(),
            n == orig.len(),
            mean == mean_avg(orig),
            i == kept_alleles(orig, mean as int, c).len(),
            table@ == kept_alleles(orig, mean as int, c) + orig.subrange(c, orig.len() as int),
        decreases orig.len() - c,
    {
        assert(table@[i as int] == orig[c]);
        if (table[i].1.1.avg as u128) < mean {
            table.remove(i);
            assert(table@ =~= kept_alleles(orig, mean as int, c + 1) + orig.subrange(
                c + 1,
                orig.len() as int,
            ));
        } else {
            assert(table@ =~= kept_alleles(orig, mean as int, c + 1) + orig.subrange(
                c + 1,
                orig.len() as int,
            ));
            i += 1;
        }
        proof {
            c = c + 1;
        }
    }
    proof {
        lemma_kept_alleles::<G, A>(orig, mean as int, orig.len() as int);
        assert(c == orig.len());
        assert(table@ =~= kept_alleles(orig, mean as int, c));
    }
}

impl<G: Key, A: Allele<G>> GenePool<G, A> {
    /// Thins out every table of `PRUNE_SIZE` alleles or more: the alleles
    /// whose average is strictly below the mean of the table's averages are
    /// dropped. Smaller tables stay as they are.
    pub fn prune(&mut self)
        requires
            old(self).wf(),
        ensures
            final(self)@.len() == old(self)@.len(),
            forall|i: int|
                0 <= i < old(self)@.len() ==> #[trigger] final(self)@[i] == (
                    old(self)@[i].0,
                    pruned_table(old(self)@[i].1),
                ),
            final(self).wf(),
    {
        let ghost before = self@;
        let mut g: usize = 0;
        while g < self.genes.len()
            invariant
                g <= self.genes.len(),
                self@.len() == before.len(),
                pool_wf(before),
                forall|i: int|
                    0 <= i < g ==> #[trigger] self@[i] == (before[i].0, pruned_table(before[i].1)),
                forall|i: int| g <= i < before.len() ==> #[trigger] self@[i] == before[i],
                forall|i: int| 0 <= i < g ==> table_wf::<G, A>((#[trigger] self@[i]).1),
            decreases self.genes.len() - g,
        {
            let ghost now = self@;
            assert(now[g as int] == (self.genes[g as int].0, self.genes[g as int].1@));
            assert(table_wf::<G, A>(before[g as int].1));
            prune_table::<G, A>(&mut self.genes[g].1);
            proof {
                assert forall|i: int| 0 <= i < before.len() && i != g implies #[trigger] self@[i]
                    == now[i] by {}
            }
            g += 1;
        }
        proof {
            let after = self@;
            assert forall|i: int, j: int| 0 <= i < j < after.len() implies (#[trigger] after[i]).0
                != (#[trigger] after[j]).0 by {
                assert(before[i].0 != before[j].0);
            }
        }
    }
}


impl<G: Key, A: Allele<G>> GenePool<G, A> {
    /// Whether the pool is well formed: no gene and no allele of a gene
    /// entered twice, every allele well formed and under its own identity,
    /// every score an average.
    pub fn check(&self) -> (ok: bool)
        ensures
            ok == self.wf(),
    {
        let ghost pool = self@;
        let genes_ok = distinct(&self.genes);
        proof {
            assert(keys_distinct(pool) == keys_distinct(self.genes@)) by {
                if keys_distinct(self.genes@) {
                    assert forall|i: int, j: int| 0 <= i < j < pool.len() implies (
                    #[trigger] pool[i]).0 != (#[trigger] pool[j]).0 by {
                        assert(self.genes@[i].0 != self.genes@[j].0);
                    }
                }
                if keys_distinct(pool) {
                    assert forall|i: int, j: int| 0 <= i < j < self.genes@.len() implies (
                    #[trigger] self.genes@[i]).0 != (#[trigger] self.genes@[j]).0 by {
                        assert(pool[i].0 != pool[j].0);
                    }
                }
            }
        }
        if !genes_ok {
            return false;
        }
        let mut g: usize = 0;
        while g < self.genes.len()
            invariant
                g <= self.genes.len(),
                pool == self@,
                forall|i: int| 0 <= i < g ==> table_wf::<G, A>((#[trigger] pool[i]).1),
            decreases self.genes.len() - g,
        {
            assert(pool[g as int] == (self.genes@[g as int].0, self.genes@[g as int].1@));
            if !Self::check_table(&self.genes[g].1) {
                return false;
            }
            g += 1;
        }
        true
    }

    /// Whether a table is well formed.
    fn check_table(table: &Vec<(AlleleID, (A, Score))>) -> (ok: bool)
        ensures
            ok == table_wf::<G, A>(table@),
    {
        if !distinct(table) {
            return false;
        }
        let mut j: usize = 0;
        while j < table.len()
            invariant
                j <= table.len(),
                forall|k: int|
                    0 <= k < j ==> (#[trigger] table@[k]).0 == table@[k].1.0.allele_id()
                        && table@[k].1.1.wf() && table@[k].1.0.valid(),
            decreases table.len() - j,
        {
            let id = table[j].1.0.get_allele_id();
            if id != table[j].0 || !table[j].1.1.check() || !table[j].1.0.check() {
                assert(!(table@[j as int].0 == table@[j as int].1.0.allele_id()
                    && table@[j as int].1.1.wf() && table@[j as int].1.0.valid()));
                return false;
            }
            j += 1;
        }
        true
    }
}

} // verus!
