# tiptop

TipTop picks seed nodes of a social graph, within a budget, that influence as
much of the graph as possible. It draws reverse-reachable (RR) samples, solves
an integer program for the seeds that cover the most samples, and verifies the
seeds statistically on fresh samples; until they pass, it draws more samples
and solves again. See <https://arxiv.org/abs/1701.08462>.

The library under `src/` is verified with [Verus](https://github.com/verus-lang/verus).
It holds the decisions of the algorithm over node numbers and counts:

- `coverage`: how many samples a seed set covers
- `ilp`, `ilp_laws`: the integer program, what it means, and that its optimal
  solutions maximize coverage within the budget
- `verify`, `verify_laws`: the verification of a seed set as a state machine
- `tiptop`, `tiptop_laws`: the sampling loop as a state machine
- `sampling`, `input`, `report`: requests for samples, checks on the input, and
  the seeds as text
- `names`, `nodes`: decimal names, and ordered lists of nodes

The two state machines say what they want next (an action) and are handed the
answer (an event). The program under `app/` performs the actions: it computes
the error bounds in floating point, draws samples at random in parallel, and
runs the solver: CPLEX, or Gurobi with the `grb` feature.
