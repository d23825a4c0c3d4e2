# CompeteEvolve

Competing LLM agents that improve implementations of machine-learning
algorithms through evolutionary search, with every candidate measured.

Several agents share one archive. Each round, every agent asks for candidates
(a mutation of one parent, or a crossover of two), a Python harness measures
each of them, and the agents are ranked by their best valid candidate. The
better half earn a reward, everyone sees the leaderboard and the best rival's
code, and the next round begins.

## Layout

- `src/` is the library, written in Verus: the rules of the competition that
  decide, compare, count, parse and write text, with their contracts proved.
  - `measure`, `digits`, `text`, `json`: numbers that can be ordered, decimal
    numbers, text, and JSON as a tree.
  - `config`, `context`, `metaprompt`: configuration, command line and what the
    user chooses.
  - `harness`: how the harness is called, what its output means, and the
    EVOLVE block of a seed file.
  - `fitness`, `embedding`, `ranking`, `archive`: validity, rewards, terms of a
    text, orders, and the archive with its leaderboard and parents.
  - `evolution`, `prompts`, `agent`, `gemini`, `orchestrator`: requests for
    candidates, prompts, the turns of an agent, replies of the model, and runs.
  - `agent/` (`database`, `evolution`, `evaluator`, `reinforcement`,
    `session`) and `benchmark`: agents that share a store, and the report on
    them.
- `tests/` runs the library on concrete values.
- `app/` is the program around it: files, processes, HTTP, JSON output, charts
  and arithmetic in floating point.

Measured numbers are doubles. The library only compares them: it holds a double
as an integer with the same order (`Measure`), and the program does the
arithmetic. So the formulas of fitness and novelty, the cosines and their means,
and the weights of a draw stand in `app/`, mostly in `app/figures.rs`, and nothing
is proved of them. What is proved begins where their results are compared.

## Run

    competeevolve --list-tasks
    competeevolve --task kmeans --baseline-only
    competeevolve --task logistic_regression --agents 3 --rounds 3
    competeevolve interactive 3

`GEMINI_API_KEY` holds the key, `GEMINI_MODEL` overrides the models of the
configuration, and `PYTHON` names the interpreter of the harness.
