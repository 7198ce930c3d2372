//! Word-addressed memory behind a direct-mapped cache, with two I/O ports.
//! A cache miss keeps the memory busy for ten ticks, a write that hits for one.
use vstd::prelude::*;

verus! {

/// Address of the input port: a read takes the next input word.
pub const IN_ADDR: u32 = 0x1FFFFFE;

/// Address of the output port: a write appends to the output.
pub const OUT_ADDR: u32 = 0x1FFFFFF;

/// The state of a memory as plain values.
pub struct MemoryModel {
    pub data: Seq<i32>,
    pub input_buf: Seq<i32>,
    pub input_pos: usize,
    pub output_buf: Seq<i32>,
    pub size: usize,
    pub cache_tags: Seq<u32>,
    pub cache_data: Seq<i32>,
    pub cache_size: usize,
    pub busy: bool,
    pub done: bool,
    pub counter: u8,
    pub write: bool,
    pub addr: u32,
    pub mdr: i32,
}

pub struct Memory {
    pub data: Vec<i32>,
    pub input_buf: Vec<i32>,
    pub input_pos: usize,
    pub output_buf: Vec<i32>,
    pub size: usize,
    pub cache_tags: Vec<u32>,
    pub cache_data: Vec<i32>,
    pub cache_size: usize,
    pub busy: bool,
    pub done: bool,
    pub counter: u8,
    pub write: bool,
    pub addr: u32,
    pub mdr: i32,
}

impl Memory {
    pub open spec fn view(&self) -> MemoryModel {
        MemoryModel {
            data: self.data@,
            input_buf: self.input_buf@,
            input_pos: self.input_pos,
            output_buf: self.output_buf@,
            size: self.size,
            cache_tags: self.cache_tags@,
            cache_data: self.cache_data@,
            cache_size: self.cache_size,
            busy: self.busy,
            done: self.done,
            counter: self.counter,
            write: self.write,
            addr: self.addr,
            mdr: self.mdr,
        }
    }
}

/// The memory as `Memory::new(size, cache_size)` makes it.
pub open spec fn initial_memory(size: usize, cache_size: usize) -> MemoryModel {
    MemoryModel {
        data: Seq::new(size as nat, |i: int| 0i32),
        input_buf: Seq::empty(),
        input_pos: 0,
        output_buf: Seq::empty(),
        size: size,
        cache_tags: Seq::new(cache_size as nat, |i: int| u32::MAX),
        cache_data: Seq::new(cache_size as nat, |i: int| 0i32),
        cache_size: cache_size,
        busy: false,
        done: false,
        counter: 0,
        write: false,
        addr: 0,
        mdr: 0,
    }
}

/// The shape that the operations other than `new` need: vectors of their
/// stated lengths, a cache size that is positive and fits an address, and a
/// pending access that has ticks left and is not to a port.
pub open spec fn wf(m: MemoryModel) -> bool {
    &&& m.data.len() == m.size
    &&& cache_ready(m)
    &&& m.busy ==> m.counter >= 1 && m.addr != IN_ADDR && m.addr != OUT_ADDR
}

/// The cache has lines, at most 2^32 of them, with a tag and a word each.
pub open spec fn cache_ready(m: MemoryModel) -> bool {
    &&& m.cache_tags.len() == m.cache_size
    &&& m.cache_data.len() == m.cache_size
    &&& 0 < m.cache_size <= u32::MAX
}

/// A memory tick can run: the stored words fill the memory, and a pending
/// access has ticks left to count and a ready cache.
pub open spec fn tick_ready(m: MemoryModel) -> bool {
    &&& m.data.len() == m.size
    &&& m.busy ==> m.counter >= 1 && cache_ready(m)
}

/// A read or write of `addr` can start: the stored words fill the memory, and
/// where the access reaches the cache (no access pending or waiting, not a
/// port), the cache is ready.
pub open spec fn access_ok(m: MemoryModel, addr: u32) -> bool {
    &&& m.data.len() == m.size
    &&& (m.busy || m.done || addr == IN_ADDR || addr == OUT_ADDR || cache_ready(m))
}

/// The cache line of an address.
pub open spec fn line_of(m: MemoryModel, addr: u32) -> int {
    (addr as int) % (m.cache_size as int)
}

/// The tag of an address.
pub open spec fn tag_of(m: MemoryModel, addr: u32) -> u32 {
    (addr as int / m.cache_size as int) as u32
}

/// The cache holds the line of `addr`.
pub open spec fn hit(m: MemoryModel, addr: u32) -> bool {
    m.cache_tags[line_of(m, addr)] == tag_of(m, addr)
}

/// A read past the caches: the input port takes the next input word while one
/// is left (else it reads as plain memory), other addresses read the stored
/// word, or 0 beyond the end.
pub open spec fn read_through(m: MemoryModel, addr: u32) -> (MemoryModel, i32) {
    if addr == IN_ADDR && m.input_pos < m.input_buf.len() {
        (MemoryModel { input_pos: (m.input_pos + 1) as usize, ..m }, m.input_buf[m.input_pos as int])
    } else if (addr as int) < m.size {
        (m, m.data[addr as int])
    } else {
        (m, 0)
    }
}

/// A write past the caches: the output port appends to the output, other
/// addresses below the end are stored, the rest is dropped.
pub open spec fn write_through(m: MemoryModel, addr: u32, value: i32) -> MemoryModel {
    if addr == OUT_ADDR {
        MemoryModel { output_buf: m.output_buf.push(value), ..m }
    } else if (addr as int) < m.size {
        MemoryModel { data: m.data.update(addr as int, value), ..m }
    } else {
        m
    }
}

/// Starting a read: ignored while an access is pending or a result waits; the
/// ports answer at once; a cache hit answers at once; a miss waits ten ticks.
pub open spec fn read_start_model(m: MemoryModel, addr: u32) -> MemoryModel {
    if m.busy || m.done {
        m
    } else if addr == IN_ADDR || addr == OUT_ADDR {
        let (m1, v) = read_through(m, addr);
        MemoryModel { mdr: v, done: true, ..m1 }
    } else if hit(m, addr) {
        MemoryModel { addr: addr, write: false, mdr: m.cache_data[line_of(m, addr)], done: true, ..m }
    } else {
        MemoryModel { addr: addr, write: false, counter: 10, busy: true, ..m }
    }
}

/// Starting a write: ignored while an access is pending or a result waits; the
/// ports take it at once; otherwise it takes one tick on a hit and ten on a miss.
pub open spec fn write_start_model(m: MemoryModel, addr: u32, value: i32) -> MemoryModel {
    if m.busy || m.done {
        m
    } else if addr == IN_ADDR || addr == OUT_ADDR {
        MemoryModel { done: true, ..write_through(m, addr, value) }
    } else {
        MemoryModel {
            addr: addr,
            mdr: value,
            write: true,
            counter: if hit(m, addr) { 1 } else { 10 },
            busy: true,
            ..m
        }
    }
}

/// One memory tick: a pending access counts down; when it reaches zero a write
/// goes through (and refreshes a cached copy), a read fills the cache line and
/// the data register, and the result is marked done.
pub open spec fn tick_model(m: MemoryModel) -> MemoryModel {
    if !m.busy {
        m
    } else if m.counter > 1 {
        MemoryModel { counter: (m.counter - 1) as u8, ..m }
    } else {
        let line = line_of(m, m.addr);
        let tag = tag_of(m, m.addr);
        if m.write {
            let m1 = write_through(m, m.addr, m.mdr);
            let cd = if m.cache_tags[line] == tag { m1.cache_data.update(line, m.mdr) } else { m1.cache_data };
            MemoryModel { cache_data: cd, counter: 0, busy: false, done: true, ..m1 }
        } else {
            let (m1, v) = read_through(m, m.addr);
            MemoryModel {
                mdr: v,
                cache_tags: m1.cache_tags.update(line, tag),
                cache_data: m1.cache_data.update(line, v),
                counter: 0,
                busy: false,
                done: true,
                ..m1
            }
        }
    }
}

/// The cache agrees with memory: no line stands for the input port, and a
/// cached line whose address lies below the end holds the stored word.
pub open spec fn coherent(m: MemoryModel) -> bool {
    forall|i: int| 0 <= i < m.cache_size ==> #[trigger] line_agrees(m, i)
}

/// The address that cache line `i` stands for.
pub open spec fn line_addr(m: MemoryModel, i: int) -> int {
    m.cache_tags[i] as int * m.cache_size as int + i
}

/// Cache line `i` does not stand for the input port, and holds the stored word
/// when its address lies below the end.
pub open spec fn line_agrees(m: MemoryModel, i: int) -> bool {
    &&& line_addr(m, i) != IN_ADDR as int
    &&& line_addr(m, i) < m.size ==> m.cache_data[i] == m.data[line_addr(m, i)]
}

impl Memory {
    /// A memory of `size` zero words with a cache of `cache_size` empty lines.
    pub fn new(size: usize, cache_size: usize) -> (m: Self)
        ensures
            m@ == initial_memory(size, cache_size),
    {
        let m = Memory {
            data: vec![0i32; size],
            input_buf: Vec::new(),
            input_pos: 0,
            output_buf: Vec::new(),
            size,
            cache_tags: vec![u32::MAX; cache_size],
            cache_data: vec![0i32; cache_size],
            cache_size,
            busy: false,
            done: false,
            counter: 0,
            write: false,
            addr: 0,
            mdr: 0,
        };
        assert(m@.data =~= initial_memory(size, cache_size).data);
        assert(m@.cache_tags =~= initial_memory(size, cache_size).cache_tags);
        assert(m@.cache_data =~= initial_memory(size, cache_size).cache_data);
        m
    }
}


/// The memory after `load(addr, words)`: the words stored from `addr` on, as
/// far as they lie below the end.
pub open spec fn load_model(m: MemoryModel, addr: u32, words: Seq<i32>) -> MemoryModel {
    MemoryModel {
        data: Seq::new(
            m.data.len(),
            |j: int|
                if addr as int <= j < addr as int + words.len() {
                    words[j - addr as int]
                } else {
                    m.data[j]
                },
        ),
        ..m
    }
}

/// The memory after `set(addr, value)`.
pub open spec fn set_model(m: MemoryModel, addr: u32, value: i32) -> MemoryModel {
    if (addr as int) < m.size {
        MemoryModel { data: m.data.update(addr as int, value), ..m }
    } else {
        m
    }
}

impl Memory {
    /// Starts a read of `addr` (see `read_start_model`).
    pub fn read_start(&mut self, addr: u32)
        requires
            access_ok(old(self)@, addr),
        ensures
            final(self)@ == read_start_model(old(self)@, addr),
    {
        if self.busy || self.done {
            return;
        }
        if addr == IN_ADDR || addr == OUT_ADDR {
            self.mdr = self.read_through(addr);
            self.done = true;
            return;
        }
        self.addr = addr;
        self.write = false;
        let idx = (addr as usize) % self.cache_size;
        let tag = addr / self.cache_size as u32;
        if self.cache_tags[idx] == tag {
            self.mdr = self.cache_data[idx];
            self.done = true;
        } else {
            self.counter = 10;
            self.busy = true;
        }
    }

    /// Starts a write of `value` to `addr` (see `write_start_model`).
    pub fn write_start(&mut self, addr: u32, value: i32)
        requires
            access_ok(old(self)@, addr),
        ensures
            final(self)@ == write_start_model(old(self)@, addr, value),
    {
        if self.busy || self.done {
            return;
        }
        if addr == IN_ADDR || addr == OUT_ADDR {
            self.write_through(addr, value);
            self.done = true;
            return;
        }
        self.addr = addr;
        self.mdr = value;
        self.write = true;
        let idx = (addr as usize) % self.cache_size;
        let tag = addr / self.cache_size as u32;
        if self.cache_tags[idx] == tag {
            self.counter = 1;
        } else {
            self.counter = 10;
        }
        self.busy = true;
    }

    /// Advances a pending access by one tick; returns whether it is still pending.
    pub fn tick(&mut self) -> (still_busy: bool)
        requires
            tick_ready(old(self)@),
        ensures
            final(self)@ == tick_model(old(self)@),
            still_busy == final(self)@.busy,
    {
        if !self.busy {
            return false;
        }
        self.counter -= 1;
        if self.counter == 0 {
            let idx = (self.addr as usize) % self.cache_size;
            let tag = self.addr / self.cache_size as u32;
            if self.write {
                self.write_through(self.addr, self.mdr);
                if self.cache_tags[idx] == tag {
                    self.cache_data.set(idx, self.mdr);
                }
            } else {
                let data = self.read_through(self.addr);
                self.mdr = data;
                self.cache_tags.set(idx, tag);
                self.cache_data.set(idx, data);
            }
            self.busy = false;
            self.done = true;
        }
        self.busy
    }

    /// Whether an access is pending.
    pub fn is_busy(&self) -> (b: bool)
        ensures
            b == self@.busy,
    {
        self.busy
    }

    /// Whether a result waits to be collected.
    pub fn is_done(&self) -> (b: bool)
        ensures
            b == self@.done,
    {
        self.done
    }

    /// Takes the waiting result: returns the data register and clears `done`.
    pub fn collect(&mut self) -> (v: i32)
        ensures
            v == old(self)@.mdr,
            final(self)@ == (MemoryModel { done: false, ..old(self)@ }),
    {
        self.done = false;
        self.mdr
    }

    /// Clears `done` without reading the result.
    pub fn clear_done(&mut self)
        ensures
            final(self)@ == (MemoryModel { done: false, ..old(self)@ }),
    {
        self.done = false;
    }

    fn read_through(&mut self, addr: u32) -> (v: i32)
        requires
            old(self)@.data.len() == old(self)@.size,
        ensures
            (final(self)@, v) == read_through(old(self)@, addr),
    {
        if addr == IN_ADDR {
            if self.input_pos < self.input_buf.len() {
                let val = self.input_buf[self.input_pos];
                self.input_pos += 1;
                val
            } else if (addr as usize) < self.size {
                self.data[addr as usize]
            } else {
                0
            }
        } else if (addr as usize) < self.size {
            self.data[addr as usize]
        } else {
            0
        }
    }

    fn write_through(&mut self, addr: u32, value: i32)
        requires
            old(self)@.data.len() == old(self)@.size,
        ensures
            final(self)@ == write_through(old(self)@, addr, value),
    {
        if addr == OUT_ADDR {
            self.output_buf.push(value);
        } else if (addr as usize) < self.size {
            self.data.set(addr as usize, value);
        }
    }

    /// Whether input words remain to be read.
    pub fn input_ready(&self) -> (b: bool)
        ensures
            b == (self@.input_pos < self@.input_buf.len()),
    {
        self.input_pos < self.input_buf.len()
    }

    /// Stores `words` from `addr` on, dropping those beyond the end.
    pub fn load(&mut self, addr: u32, words: &[i32])
        requires
            old(self)@.data.len() == old(self)@.size,
            addr as int + words@.len() <= usize::MAX,
        ensures
            final(self)@ == load_model(old(self)@, addr, words@),
    {
        let mut i: usize = 0;
        assert(self@.data =~= load_model(old(self)@, addr, words@.subrange(0, 0)).data);
        while i < words.len()
            invariant
                self@.data.len() == self@.size,
                i <= words@.len(),
                addr as int + words@.len() <= usize::MAX,
                self@ == load_model(old(self)@, addr, words@.subrange(0, i as int)),
            decreases words@.len() - i,
        {
            let a = (addr as usize) + i;
            if a < self.size {
                self.data.set(a, words[i]);
            }
            i = i + 1;
            assert(self@.data =~= load_model(old(self)@, addr, words@.subrange(0, i as int)).data);
        }
        assert(words@.subrange(0, i as int) =~= words@);
    }

    /// The stored word at `addr`.
    pub fn get(&self, addr: u32) -> (v: i32)
        requires
            self@.data.len() == self@.size,
            (addr as int) < self@.size,
        ensures
            v == self@.data[addr as int],
    {
        self.data[addr as usize]
    }

    /// Stores `value` at `addr` when it lies below the end.
    pub fn set(&mut self, addr: u32, value: i32)
        requires
            old(self)@.data.len() == old(self)@.size,
        ensures
            final(self)@ == set_model(old(self)@, addr, value),
    {
        if (addr as usize) < self.size {
            self.data.set(addr as usize, value);
        }
    }
}

/// Every operation but `load` and `set` keeps a coherent cache coherent.
pub proof fn lemma_operations_keep_coherence(m: MemoryModel, addr: u32, value: i32)
    requires
        wf(m),
        coherent(m),
    ensures
        coherent(read_start_model(m, addr)),
        coherent(write_start_model(m, addr, value)),
        coherent(tick_model(m)),
        coherent(MemoryModel { done: false, ..m }),
{
    let r = read_start_model(m, addr);
    assert(r.cache_tags == m.cache_tags && r.cache_data == m.cache_data && r.data == m.data
        && r.size == m.size && r.cache_size == m.cache_size);
    assert forall|i: int| 0 <= i < r.cache_size implies #[trigger] line_agrees(r, i) by {
        let a = m.cache_tags[i] as int * m.cache_size as int + i;
        assert(line_agrees(m, i));
        if a < m.size {
            assert(m.cache_data[i] == m.data[a]);
        }
    }
    let t = tick_model(m);
    if m.busy && m.counter <= 1 {
        let line = line_of(m, m.addr);
        let tag = tag_of(m, m.addr);
        lemma_line_tag(m.cache_size, m.addr);
        assert forall|i: int| 0 <= i < t.cache_size implies #[trigger] line_agrees(t, i) by {
            let a = t.cache_tags[i] as int * t.cache_size as int + i;
            let a0 = m.cache_tags[i] as int * m.cache_size as int + i;
            assert(line_agrees(m, i));
            if i == line && !m.write {
                assert(a == m.addr as int);
            }
            if a < t.size {
                if i == line {
                    if !m.write {
                        assert(a == m.addr as int);
                    } else if m.cache_tags[i] == tag {
                        assert(a == m.addr as int);
                    } else {
                        lemma_distinct_addresses(m.cache_size, m.cache_tags[i], tag, i);
                        assert(m.cache_data[i] == m.data[a0]);
                    }
                } else {
                    assert(m.cache_data[i] == m.data[a0]);
                    if m.write && (m.addr as int) < m.size && m.addr != OUT_ADDR {
                        lemma_distinct_lines(m.cache_size, m.addr, m.cache_tags[i], i);
                    }
                }
            }
        }
    }
    if !(m.busy && m.counter <= 1) {
        assert forall|i: int| 0 <= i < t.cache_size implies #[trigger] line_agrees(t, i) by {
            assert(line_agrees(m, i));
        }
    }
    let w = write_start_model(m, addr, value);
    assert(w.cache_tags == m.cache_tags && w.cache_data == m.cache_data && w.size == m.size
        && w.cache_size == m.cache_size);
    assert(forall|j: int| j != IN_ADDR as int && 0 <= j < m.size ==> w.data[j] == m.data[j]);
    assert forall|i: int| 0 <= i < w.cache_size implies #[trigger] line_agrees(w, i) by {
        let a = m.cache_tags[i] as int * m.cache_size as int + i;
        assert(line_agrees(m, i));
        if a < m.size {
            assert(m.cache_data[i] == m.data[a]);
        }
    }
    let c = MemoryModel { done: false, ..m };
    assert forall|i: int| 0 <= i < c.cache_size implies #[trigger] line_agrees(c, i) by {
        let a = m.cache_tags[i] as int * m.cache_size as int + i;
        assert(line_agrees(m, i));
        if a < m.size {
            assert(m.cache_data[i] == m.data[a]);
        }
    }
}

proof fn lemma_line_tag(cs: usize, addr: u32)
    requires
        0 < cs <= u32::MAX,
    ensures
        ((addr as int / cs as int) as u32) as int * cs as int + (addr as int) % (cs as int) == addr as int,
        0 <= (addr as int) % (cs as int) < cs as int,
        addr as int / cs as int <= u32::MAX,
{
    let x = addr as int;
    let c = cs as int;
    vstd::arithmetic::div_mod::lemma_fundamental_div_mod(x, c);
    vstd::arithmetic::div_mod::lemma_div_pos_is_pos(x, c);
    vstd::arithmetic::div_mod::lemma_mod_bound(x, c);
    assert(x / c <= x) by (nonlinear_arith)
        requires x >= 0, c >= 1;
    assert(((x / c) as u32) as int == x / c);
    assert(c * (x / c) == (x / c) * c) by (nonlinear_arith);
}

proof fn lemma_distinct_addresses(cs: usize, t1: u32, t2: u32, i: int)
    requires
        0 < cs,
        0 <= i < cs,
        t1 != t2,
    ensures
        t1 as int * cs as int + i != t2 as int * cs as int + i,
{
    let a = t1 as int;
    let b = t2 as int;
    let c = cs as int;
    assert(a * c != b * c) by (nonlinear_arith)
        requires a != b, c > 0;
}

proof fn lemma_distinct_lines(cs: usize, addr: u32, t: u32, i: int)
    requires
        0 < cs <= u32::MAX,
        0 <= i < cs,
        i != (addr as int) % (cs as int),
    ensures
        t as int * cs as int + i != addr as int,
{
    lemma_line_tag(cs, addr);
    if t as int * cs as int + i == addr as int {
        vstd::arithmetic::div_mod::lemma_fundamental_div_mod_converse(addr as int, cs as int, t as int, i);
    }
}

/// A read of a plain address below the end gives the stored word, whether it
/// hits the cache (done at once) or misses (pending until its last tick).
pub proof fn lemma_read_gives_stored_word(m: MemoryModel, addr: u32)
    requires
        wf(m),
        coherent(m),
        !m.busy,
        !m.done,
        addr != IN_ADDR,
        addr != OUT_ADDR,
        (addr as int) < m.size,
    ensures
        read_start_model(m, addr).done ==> read_start_model(m, addr).mdr == m.data[addr as int],
        read_start_model(m, addr).busy ==> {
            let r = read_start_model(m, addr);
            &&& !r.write
            &&& r.addr == addr
            &&& r.data == m.data
        },
{
    if hit(m, addr) {
        lemma_line_tag(m.cache_size, addr);
        let i = line_of(m, addr);
        assert(line_agrees(m, i));
    }
}

/// The memory once a pending access has run its ticks: ticked while it is
/// busy.
pub open spec fn settle(m: MemoryModel) -> MemoryModel
    decreases m.counter,
{
    if m.busy && m.counter > 0 {
        settle(tick_model(m))
    } else {
        m
    }
}

/// A pending write of a plain address below the end, run to its end, stores
/// the word and refreshes a cached copy of it, and leaves the tags alone.
proof fn lemma_settle_write(m: MemoryModel)
    requires
        m.data.len() == m.size,
        cache_ready(m),
        m.busy,
        m.write,
        m.counter >= 1,
        m.addr != OUT_ADDR,
        (m.addr as int) < m.size,
    ensures
        ({
            let w = settle(m);
            &&& !w.busy
            &&& w.done
            &&& w.data.len() == w.size
            &&& w.size == m.size
            &&& w.cache_size == m.cache_size
            &&& cache_ready(w)
            &&& w.cache_tags == m.cache_tags
            &&& w.data[m.addr as int] == m.mdr
            &&& w.cache_tags[line_of(m, m.addr)] == tag_of(m, m.addr) ==> w.cache_data[line_of(m, m.addr)] == m.mdr
        }),
    decreases m.counter,
{
    lemma_line_tag(m.cache_size, m.addr);
    if m.counter > 1 {
        lemma_settle_write(tick_model(m));
    } else {
        assert(settle(tick_model(m)) == tick_model(m));
    }
}

/// A pending read of a plain address below the end, run to its end, gives the
/// stored word.
proof fn lemma_settle_read(m: MemoryModel)
    requires
        m.data.len() == m.size,
        cache_ready(m),
        m.busy,
        !m.write,
        m.counter >= 1,
        m.addr != IN_ADDR,
        (m.addr as int) < m.size,
    ensures
        !settle(m).busy,
        settle(m).done,
        settle(m).mdr == m.data[m.addr as int],
    decreases m.counter,
{
    lemma_line_tag(m.cache_size, m.addr);
    if m.counter > 1 {
        lemma_settle_read(tick_model(m));
    } else {
        assert(settle(tick_model(m)) == tick_model(m));
    }
}

/// A read gives back what a write wrote: from an idle memory, a write of `v`
/// to a plain address below the end, ticked until it is done and then
/// acknowledged, followed by a read of that address ticked until it is done,
/// leaves `v` to collect. This holds whatever the cache held before: a
/// finished write refreshes a cached copy of its address.
pub proof fn lemma_write_then_read(m: MemoryModel, a: u32, v: i32)
    requires
        wf(m),
        !m.busy,
        !m.done,
        a != IN_ADDR,
        a != OUT_ADDR,
        (a as int) < m.size,
    ensures
        ({
            let w = settle(write_start_model(m, a, v));
            let r = settle(read_start_model(MemoryModel { done: false, ..w }, a));
            &&& w.done && !w.busy
            &&& r.done && !r.busy
            &&& r.mdr == v
        }),
{
    let w0 = write_start_model(m, a, v);
    lemma_settle_write(w0);
    let w = settle(w0);
    let c = MemoryModel { done: false, ..w };
    lemma_line_tag(m.cache_size, a);
    if !hit(c, a) {
        lemma_settle_read(read_start_model(c, a));
    }
}

/// How many ticks a pending access still takes: ticks while it is busy.
pub open spec fn pending_ticks(m: MemoryModel) -> nat
    decreases m.counter,
{
    if m.busy && m.counter > 0 {
        1 + pending_ticks(tick_model(m))
    } else {
        0
    }
}

proof fn lemma_pending_counter(m: MemoryModel)
    requires
        m.data.len() == m.size,
        cache_ready(m),
        m.busy,
        m.counter >= 1,
        m.addr != OUT_ADDR,
        m.addr != IN_ADDR,
        (m.addr as int) < m.size,
    ensures
        pending_ticks(m) == m.counter,
    decreases m.counter,
{
    lemma_line_tag(m.cache_size, m.addr);
    if m.counter > 1 {
        lemma_pending_counter(tick_model(m));
    } else {
        assert(!tick_model(m).busy);
        assert(pending_ticks(tick_model(m)) == 0);
    }
}

/// The timing of the memory, from an idle state: a read of a plain address
/// whose line holds it answers at once, and one whose line does not takes ten
/// ticks; a write takes one tick when the line holds the address and ten when
/// not; the ports answer reads and writes at once.
pub proof fn lemma_access_timing(m: MemoryModel, a: u32, v: i32)
    requires
        wf(m),
        !m.busy,
        !m.done,
        (a as int) < m.size || a == IN_ADDR || a == OUT_ADDR,
    ensures
        (a == IN_ADDR || a == OUT_ADDR) ==> read_start_model(m, a).done && !read_start_model(m, a).busy
            && write_start_model(m, a, v).done && !write_start_model(m, a, v).busy,
        (a != IN_ADDR && a != OUT_ADDR && hit(m, a)) ==> read_start_model(m, a).done && !read_start_model(m, a).busy
            && pending_ticks(write_start_model(m, a, v)) == 1,
        (a != IN_ADDR && a != OUT_ADDR && !hit(m, a)) ==> !read_start_model(m, a).done
            && pending_ticks(read_start_model(m, a)) == 10 && pending_ticks(write_start_model(m, a, v)) == 10,
{
    if a != IN_ADDR && a != OUT_ADDR {
        if !hit(m, a) {
            lemma_pending_counter(read_start_model(m, a));
        }
        lemma_pending_counter(write_start_model(m, a, v));
    }
}

/// The last tick of a pending read of a plain address below the end delivers
/// the stored word.
pub proof fn lemma_read_completes(m: MemoryModel)
    requires
        wf(m),
        m.busy,
        !m.write,
        m.counter == 1,
        (m.addr as int) < m.size,
    ensures
        tick_model(m).done,
        !tick_model(m).busy,
        tick_model(m).mdr == m.data[m.addr as int],
{
}

/// The last tick of a pending write of a plain address below the end stores the
/// word, so that the address then holds it.
pub proof fn lemma_write_completes(m: MemoryModel)
    requires
        wf(m),
        m.busy,
        m.write,
        m.counter == 1,
        (m.addr as int) < m.size,
    ensures
        tick_model(m).done,
        tick_model(m).data[m.addr as int] == m.mdr,
{
}

/// The operations keep the memory's shape.
pub proof fn lemma_operations_keep_wf(m: MemoryModel, addr: u32, value: i32, words: Seq<i32>)
    requires
        wf(m),
    ensures
        wf(read_start_model(m, addr)),
        wf(write_start_model(m, addr, value)),
        wf(tick_model(m)),
        wf(MemoryModel { done: false, ..m }),
        wf(load_model(m, addr, words)),
        wf(set_model(m, addr, value)),
{
    if m.busy && m.counter <= 1 {
        lemma_line_tag(m.cache_size, m.addr);
    }
    if !m.busy && !m.done && addr != IN_ADDR && addr != OUT_ADDR {
        lemma_line_tag(m.cache_size, addr);
    }
}


/// A memory tick keeps the stored words filling the memory and a ready cache
/// ready.
pub proof fn lemma_tick_keeps_cache(m: MemoryModel)
    requires
        m.data.len() == m.size,
        m.busy ==> m.counter >= 1 && cache_ready(m),
    ensures
        tick_model(m).data.len() == tick_model(m).size,
        cache_ready(m) ==> cache_ready(tick_model(m)),
        tick_model(m).size == m.size,
        tick_model(m).cache_size == m.cache_size,
{
    if m.busy && m.counter <= 1 {
        lemma_line_tag(m.cache_size, m.addr);
    }
}

} // verus!
