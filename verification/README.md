# hk

Hooks that run linting and formatting steps over the files of a repository.

`src/` is the library. It decides: which files a hook works on, which command a step runs and in
which shell, what comes next in a run, a job, a plan, the statistics of a hook or a test of a step,
and what is shown at the end. Each of these is a function from what is known to what follows, with
a contract that Verus proves.

- `text`: characters
- `component`, `path`, `path_key`, `location`, `display`, `walk`: paths as bytes, by the rules of
  Unix or of Windows, and files below directories
- `ordered_map`, `name_set`: maps and sets in the order of insertion, over `indexmap`
- `step`: steps, their commands, and the course of a job
- `hook`, `options`, `skip`: hooks, what settings and options say of them, why steps are skipped
- `files`, `run`, `plan`, `stats`: the files of a hook, its runs, plans and statistics
- `context`, `summary`, `failure`: what jobs share, what is shown, what is said of failed commands
- `test_runner`, `test_run`: tests of steps
- `run_laws`, `step::job_laws`, `test_laws`: what holds of every course

`app/` is the program around it. It does what the library asks for: it runs commands and git, reads
and writes files, fills in templates and shows progress.
