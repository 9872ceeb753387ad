//! The buffers that the vertices of a tile go into.

use vstd::prelude::*;

verus! {

/// How many vertices each buffer of a tile gets: as many as fit, and the rest in the last one.
pub open spec fn buffer_lengths(vertex_count: nat, most: nat) -> Seq<nat>
    decreases vertex_count,
{
    if vertex_count == 0 || most == 0 {
        Seq::empty()
    } else if vertex_count <= most {
        seq![vertex_count]
    } else {
        seq![most] + buffer_lengths((vertex_count - most) as nat, most)
    }
}

/// How many vertices each buffer of a tile gets: as many as fit, and the rest in the last one.
pub fn split_tile_vertices(vertex_count: usize, max_vertices_per_buffer: usize) -> (lengths: Vec<
    usize,
>)
    requires
        max_vertices_per_buffer > 0,
    ensures
        lengths@.map_values(|n: usize| n as nat) == buffer_lengths(
            vertex_count as nat,
            max_vertices_per_buffer as nat,
        ),
{
    let ghost most = max_vertices_per_buffer as nat;
    let mut lengths: Vec<usize> = Vec::new();
    let mut left: usize = vertex_count;
    assert(lengths@.map_values(|n: usize| n as nat) + buffer_lengths(left as nat, most)
        =~= buffer_lengths(vertex_count as nat, most));
    while left > 0
        invariant
            max_vertices_per_buffer > 0,
            most == max_vertices_per_buffer,
            lengths@.map_values(|n: usize| n as nat) + buffer_lengths(left as nat, most)
                == buffer_lengths(vertex_count as nat, most),
        decreases left,
    {
        let ghost before = lengths@.map_values(|n: usize| n as nat);
        let ghost rest = left as nat;
        let length: usize = if left < max_vertices_per_buffer {
            left
        } else {
            max_vertices_per_buffer
        };
        lengths.push(length);
        left -= length;
        assert(lengths@.map_values(|n: usize| n as nat) =~= before.push(length as nat));
        assert(before.push(length as nat) + buffer_lengths(left as nat, most) =~= before
            + buffer_lengths(rest, most));
    }
    assert(lengths@.map_values(|n: usize| n as nat) + buffer_lengths(0, most)
        =~= lengths@.map_values(|n: usize| n as nat));
    lengths
}

/// Splitting loses no vertex, and no buffer gets more than fit.
pub proof fn law_split_keeps_vertices(vertex_count: nat, most: nat, k: int)
    requires
        most > 0,
        0 <= k < buffer_lengths(vertex_count, most).len(),
    ensures
        0 < buffer_lengths(vertex_count, most)[k] <= most,
        sum_of(buffer_lengths(vertex_count, most)) == vertex_count,
    decreases vertex_count,
{
    if vertex_count <= most {
        assert(sum_of(buffer_lengths(vertex_count, most).skip(1)) == 0);
    } else {
        let rest = buffer_lengths((vertex_count - most) as nat, most);
        assert(rest.len() > 0);
        if k > 0 {
            law_split_keeps_vertices((vertex_count - most) as nat, most, k - 1);
        } else {
            law_split_keeps_vertices((vertex_count - most) as nat, most, 0);
        }
        assert(buffer_lengths(vertex_count, most).skip(1) =~= rest);
    }
}

/// All of these together.
pub open spec fn sum_of(numbers: Seq<nat>) -> nat
    decreases numbers.len(),
{
    if numbers.len() == 0 {
        0
    } else {
        numbers[0] + sum_of(numbers.skip(1))
    }
}

} // verus!
