//! Which programs a build compiles, and the preparation of a whole batch of
//! programs, which the first fatal fault stops.
use vstd::prelude::*;
use crate::expand::ShaderLibrary;
use crate::program::{assemble, string_views, Assembly, BuildError, BuildFault, ShaderProgram, ShaderStage};
use crate::text::chars_of;

verus! {

/// One program to compile: a logical name and a stage.
#[derive(Debug)]
pub struct ShaderUnit {
    pub name: String,
    pub stage: ShaderStage,
}

impl View for ShaderUnit {
    type V = (Seq<char>, ShaderStage);

    open spec fn view(&self) -> (Seq<char>, ShaderStage) {
        (self.name@, self.stage)
    }
}

/// The views of a sequence of units.
pub open spec fn unit_views(v: Seq<ShaderUnit>) -> Seq<(Seq<char>, ShaderStage)> {
    v.map_values(|u: ShaderUnit| u@)
}

/// Whether `n` occurs in `h` at index `i`.
pub open spec fn occurs_at(h: Seq<char>, n: Seq<char>, i: int) -> bool {
    0 <= i && i + n.len() <= h.len() && h.subrange(i, i + n.len()) == n
}

/// Whether `n` occurs anywhere in `h`.
pub open spec fn occurs_in(h: Seq<char>, n: Seq<char>) -> bool {
    exists|i: int| occurs_at(h, n, i)
}

/// The render programs, each compiled for the vertex and fragment stages.
pub open spec fn render_program_names() -> Seq<Seq<char>> {
    seq![
        "none"@,
        "clear_color"@,
        "particle/trajectory_presenting"@,
        "particle/pigment_diffuse"@,
    ]
}

/// The compute programs, each compiled for the compute stage.
pub open spec fn compute_program_names() -> Seq<Seq<char>> {
    seq![
        "lbm/d2q9_init"@,
        "lbm/d2q9_collide"@,
        "lbm/poiseuille_stream"@,
        "lbm/lid_driven_stream"@,
        "optimized_mem_lbm/init"@,
        "optimized_mem_lbm/collide"@,
        "optimized_mem_lbm/stream"@,
        "optimized_mem_lbm/boundary"@,
        "optimized_mem_lbm/lid_driven_boundary"@,
        "optimized_mem_lbm/diffuse/init"@,
        "optimized_mem_lbm/diffuse/collide"@,
        "optimized_mem_lbm/diffuse/advect_collide"@,
        "optimized_mem_lbm/diffuse/stream"@,
        "optimized_mem_lbm/diffuse/boundary"@,
        "particle/trajectory_fade_out"@,
        "particle/trajectory_move"@,
    ]
}

/// The units of render programs: for each name, its vertex then its fragment stage.
pub open spec fn render_units(names: Seq<Seq<char>>) -> Seq<(Seq<char>, ShaderStage)>
    decreases names.len(),
{
    if names.len() == 0 {
        Seq::empty()
    } else {
        render_units(names.drop_last()).push((names.last(), ShaderStage::Vertex)).push(
            (names.last(), ShaderStage::Fragment),
        )
    }
}

/// The units of compute programs.
pub open spec fn compute_units(names: Seq<Seq<char>>) -> Seq<(Seq<char>, ShaderStage)> {
    names.map_values(|n: Seq<char>| (n, ShaderStage::Compute))
}

/// The programs of a whole batch, in order, or the fault of its first unit
/// that cannot be assembled.
pub open spec fn batch(lib: Seq<(Seq<char>, Seq<char>)>, units: Seq<(Seq<char>, ShaderStage)>) -> Result<Seq<(Seq<char>, Seq<Seq<char>>)>, BuildFault>
    decreases units.len(),
{
    if units.len() == 0 {
        Ok(Seq::empty())
    } else {
        match batch(lib, units.drop_last()) {
            Err(f) => Err(f),
            Ok(ps) => match assemble(lib, units.last().0, units.last().1) {
                Err(f) => Err(f),
                Ok(p) => Ok(ps.push(p)),
            },
        }
    }
}

/// Whether a batch failed with the fault of the assembly `a`.
pub open spec fn fails_as(b: Result<Seq<(Seq<char>, Seq<Seq<char>>)>, BuildFault>, a: Assembly) -> bool {
    b is Err && a is Err && b->Err_0 == a->Err_0
}

proof fn lemma_batch_prefix_fails(lib: Seq<(Seq<char>, Seq<char>)>, units: Seq<(Seq<char>, ShaderStage)>, i: int)
    requires
        0 <= i <= units.len(),
        batch(lib, units.subrange(0, i)) is Err,
    ensures
        batch(lib, units) == batch(lib, units.subrange(0, i)),
    decreases units.len() - i,
{
    if i < units.len() {
        assert(units.subrange(0, i + 1).drop_last() =~= units.subrange(0, i));
        lemma_batch_prefix_fails(lib, units, i + 1);
    } else {
        assert(units.subrange(0, i) =~= units);
    }
}

/// A batch stops at a fragment or compute unit whose source is absent: no
/// program of the batch is handed out, and the fault is that of a unit no
/// later than that one.
pub proof fn lemma_missing_mandatory_stops_batch(
    lib: Seq<(Seq<char>, Seq<char>)>,
    units: Seq<(Seq<char>, ShaderStage)>,
    k: int,
)
    requires
        0 <= k < units.len(),
        units[k].1 != ShaderStage::Vertex,
        crate::expand::lookup(lib, crate::program::source_path(units[k].0, units[k].1)) is None,
    ensures
        batch(lib, units) is Err,
        exists|j: int| 0 <= j <= k && fails_as(batch(lib, units), assemble(lib, units[j].0, units[j].1)),
    decreases units.len(),
{
    if k == units.len() - 1 {
        match batch(lib, units.drop_last()) {
            Err(f) => {
                assert(units.drop_last().len() > 0);
                lemma_missing_mandatory_stops_batch_prefix(lib, units.drop_last());
                let j = choose|j: int| 0 <= j < units.drop_last().len() && fails_as(batch(lib, units.drop_last()), assemble(lib, units.drop_last()[j].0, units.drop_last()[j].1));
                assert(units.drop_last()[j] == units[j]);
            },
            Ok(_) => {
                assert(fails_as(batch(lib, units), assemble(lib, units[k].0, units[k].1)));
            },
        }
    } else {
        lemma_missing_mandatory_stops_batch(lib, units.drop_last(), k);
        let j = choose|j: int| 0 <= j <= k && fails_as(batch(lib, units.drop_last()), assemble(lib, units.drop_last()[j].0, units.drop_last()[j].1));
        assert(units.drop_last()[j] == units[j]);
    }
}

/// A failed batch fails with the fault of one of its units.
proof fn lemma_missing_mandatory_stops_batch_prefix(lib: Seq<(Seq<char>, Seq<char>)>, units: Seq<(Seq<char>, ShaderStage)>)
    requires
        batch(lib, units) is Err,
    ensures
        exists|j: int| 0 <= j < units.len() && fails_as(batch(lib, units), assemble(lib, units[j].0, units[j].1)),
    decreases units.len(),
{
    match batch(lib, units.drop_last()) {
        Err(f) => {
            lemma_missing_mandatory_stops_batch_prefix(lib, units.drop_last());
            let j = choose|j: int| 0 <= j < units.drop_last().len() && fails_as(batch(lib, units.drop_last()), assemble(lib, units.drop_last()[j].0, units.drop_last()[j].1));
            assert(units.drop_last()[j] == units[j]);
        },
        Ok(_) => {
            let j = units.len() - 1;
            assert(fails_as(batch(lib, units), assemble(lib, units[j].0, units[j].1)));
        },
    }
}

/// The views of a sequence of programs.
pub open spec fn program_views(v: Seq<ShaderProgram>) -> Seq<(Seq<char>, Seq<Seq<char>>)> {
    v.map_values(|p: ShaderProgram| p@)
}

impl ShaderLibrary {
    /// Assembles every unit in order. The first unit that cannot be assembled
    /// stops the batch, and then no program is handed out.
    pub fn prepare_batch(&self, units: &Vec<ShaderUnit>) -> (r: Result<Vec<ShaderProgram>, BuildError>)
        ensures
            match batch(self@, unit_views(units@)) {
                Ok(ps) => r is Ok && program_views(r->Ok_0@) == ps,
                Err(f) => r is Err && r->Err_0@ == f,
            },
    {
        let ghost us = unit_views(units@);
        let mut out: Vec<ShaderProgram> = Vec::new();
        let mut i: usize = 0;
        assert(us.subrange(0, 0) =~= Seq::<(Seq<char>, ShaderStage)>::empty());
        assert(program_views(out@) =~= Seq::<(Seq<char>, Seq<Seq<char>>)>::empty());
        while i < units.len()
            invariant
                i <= units@.len(),
                us == unit_views(units@),
                batch(self@, us.subrange(0, i as int)) == Ok::<Seq<(Seq<char>, Seq<Seq<char>>)>, BuildFault>(program_views(out@)),
            decreases units@.len() - i,
        {
            let u = &units[i];
            proof {
                assert(us[i as int] == u@);
                assert(us.subrange(0, i + 1).drop_last() =~= us.subrange(0, i as int));
            }
            match self.assemble(u.name.as_str(), u.stage) {
                Ok(p) => {
                    let ghost o0 = out@;
                    out.push(p);
                    assert(program_views(out@) =~= program_views(o0).push(p@));
                },
                Err(e) => {
                    proof {
                        lemma_batch_prefix_fails(self@, us, i + 1);
                    }
                    return Err(e);
                },
            }
            i = i + 1;
        }
        assert(us.subrange(0, i as int) =~= us);
        Ok(out)
    }
}

/// Which build targets compile shader programs: those whose identifier
/// holds `family`.
#[derive(Debug)]
pub struct TargetPolicy {
    pub family: String,
}

/// Whether `n` occurs in `h` at index `i`.
fn occurs_at_exec(h: &Vec<char>, n: &Vec<char>, i: usize) -> (r: bool)
    requires
        i + n@.len() <= h@.len(),
    ensures
        r == occurs_at(h@, n@, i as int),
{
    let hl = h.len();
    let mut k: usize = 0;
    while k < n.len()
        invariant
            hl == h@.len(),
            i + n@.len() <= h@.len(),
            k <= n@.len(),
            h@.subrange(i as int, i + k) == n@.subrange(0, k as int),
        decreases n@.len() - k,
    {
        if h[i + k] != n[k] {
            assert(h@.subrange(i as int, i + n@.len())[k as int] != n@[k as int]);
            return false;
        }
        k = k + 1;
        assert(h@.subrange(i as int, i + k) =~= n@.subrange(0, k as int));
    }
    assert(n@.subrange(0, k as int) =~= n@);
    true
}

impl TargetPolicy {
    /// The policy of the mobile build: targets whose identifier holds `ios`.
    pub fn mobile() -> (r: Self)
        ensures
            r.family@ == "ios"@,
    {
        TargetPolicy { family: String::from_str("ios") }
    }

    /// Whether the build for `target` compiles shader programs.
    pub fn selects(&self, target: &str) -> (r: bool)
        ensures
            r == occurs_in(target@, self.family@),
    {
        let h = chars_of(target);
        let n = chars_of(self.family.as_str());
        if n.len() > h.len() {
            return false;
        }
        if n.len() == 0 {
            assert(target@.subrange(0, 0) =~= self.family@);
            assert(occurs_at(target@, self.family@, 0));
            return true;
        }
        let last = h.len() - n.len();
        let mut i: usize = 0;
        while i <= last
            invariant
                last == h@.len() - n@.len(),
                last < usize::MAX,
                h@ == target@,
                n@ == self.family@,
                n@.len() > 0,
                i <= last + 1,
                forall|j: int| 0 <= j < i ==> !occurs_at(h@, n@, j),
            decreases last + 1 - i,
        {
            if occurs_at_exec(&h, &n, i) {
                assert(occurs_at(target@, self.family@, i as int));
                return true;
            }
            i = i + 1;
        }
        false
    }

    /// The render programs that the build for `target` compiles.
    pub fn render_programs(&self, target: &str) -> (r: Vec<String>)
        ensures
            string_views(r@) == if occurs_in(target@, self.family@) {
                render_program_names()
            } else {
                Seq::empty()
            },
    {
        let mut r: Vec<String> = Vec::new();
        if self.selects(target) {
            r.push(String::from_str("none"));
            r.push(String::from_str("clear_color"));
            r.push(String::from_str("particle/trajectory_presenting"));
            r.push(String::from_str("particle/pigment_diffuse"));
        }
        assert(string_views(r@) =~= if occurs_in(target@, self.family@) {
            render_program_names()
        } else {
            Seq::empty()
        });
        r
    }

    /// The compute programs that the build for `target` compiles.
    pub fn compute_programs(&self, target: &str) -> (r: Vec<String>)
        ensures
            string_views(r@) == if occurs_in(target@, self.family@) {
                compute_program_names()
            } else {
                Seq::empty()
            },
    {
        let mut r: Vec<String> = Vec::new();
        if self.selects(target) {
            r.push(String::from_str("lbm/d2q9_init"));
            r.push(String::from_str("lbm/d2q9_collide"));
            r.push(String::from_str("lbm/poiseuille_stream"));
            r.push(String::from_str("lbm/lid_driven_stream"));
            r.push(String::from_str("optimized_mem_lbm/init"));
            r.push(String::from_str("optimized_mem_lbm/collide"));
            r.push(String::from_str("optimized_mem_lbm/stream"));
            r.push(String::from_str("optimized_mem_lbm/boundary"));
            r.push(String::from_str("optimized_mem_lbm/lid_driven_boundary"));
            r.push(String::from_str("optimized_mem_lbm/diffuse/init"));
            r.push(String::from_str("optimized_mem_lbm/diffuse/collide"));
            r.push(String::from_str("optimized_mem_lbm/diffuse/advect_collide"));
            r.push(String::from_str("optimized_mem_lbm/diffuse/stream"));
            r.push(String::from_str("optimized_mem_lbm/diffuse/boundary"));
            r.push(String::from_str("particle/trajectory_fade_out"));
            r.push(String::from_str("particle/trajectory_move"));
        }
        assert(string_views(r@) =~= if occurs_in(target@, self.family@) {
            compute_program_names()
        } else {
            Seq::empty()
        });
        r
    }

    /// The units that the build for `target` compiles, in order: each render
    /// program's vertex and fragment stages, then each compute program.
    pub fn units(&self, target: &str) -> (r: Vec<ShaderUnit>)
        ensures
            unit_views(r@) == if occurs_in(target@, self.family@) {
                render_units(render_program_names()) + compute_units(compute_program_names())
            } else {
                Seq::empty()
            },
    {
        let render = self.render_programs(target);
        let compute = self.compute_programs(target);
        let mut r: Vec<ShaderUnit> = Vec::new();
        let mut i: usize = 0;
        assert(render_units(string_views(render@).subrange(0, 0)) =~= unit_views(r@));
        while i < render.len()
            invariant
                i <= render@.len(),
                unit_views(r@) == render_units(string_views(render@).subrange(0, i as int)),
            decreases render@.len() - i,
        {
            let ghost r0 = r@;
            let n = &render[i];
            r.push(ShaderUnit { name: n.clone(), stage: ShaderStage::Vertex });
            r.push(ShaderUnit { name: n.clone(), stage: ShaderStage::Fragment });
            proof {
                let sv = string_views(render@);
                assert(sv[i as int] == n@);
                assert(sv.subrange(0, i + 1).drop_last() =~= sv.subrange(0, i as int));
                assert(unit_views(r@) =~= unit_views(r0).push((n@, ShaderStage::Vertex)).push((n@, ShaderStage::Fragment)));
            }
            i = i + 1;
        }
        assert(string_views(render@).subrange(0, i as int) =~= string_views(render@));
        let ghost base = unit_views(r@);
        let mut j: usize = 0;
        while j < compute.len()
            invariant
                j <= compute@.len(),
                unit_views(r@) == base + compute_units(string_views(compute@).subrange(0, j as int)),
            decreases compute@.len() - j,
        {
            let ghost r0 = r@;
            let n = &compute[j];
            r.push(ShaderUnit { name: n.clone(), stage: ShaderStage::Compute });
            proof {
                let sv = string_views(compute@);
                assert(sv[j as int] == n@);
                assert(unit_views(r@) =~= unit_views(r0).push((n@, ShaderStage::Compute)));
            }
            j = j + 1;
            assert(unit_views(r@) =~= base + compute_units(string_views(compute@).subrange(0, j as int)));
        }
        assert(string_views(compute@).subrange(0, j as int) =~= string_views(compute@));
        proof {
            if !occurs_in(target@, self.family@) {
                assert(render_units(Seq::<Seq<char>>::empty()) =~= Seq::<(Seq<char>, ShaderStage)>::empty());
                assert(unit_views(r@) =~= Seq::<(Seq<char>, ShaderStage)>::empty());
            }
        }
        r
    }
}

} // verus!
